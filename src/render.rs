//! Rendering the groups as markdown tables, and composing the report
//! document from a template.
use vstd::prelude::*;
use crate::text::{decimal, grouped, digits_value, without_separators, lemma_grouped_round_trip, chars_of, push_decimal, push_grouped};
use crate::scan::{find_from, find_marker, substring};
use crate::config::{Target, LoadLevel};
use crate::aggregate::{MetricSample, SampleView, views};

verus! {

pub open spec fn table_header() -> Seq<char> {
    "|   **Name**   |   Req/sec   | Avg Latency | Max Latency |  # Requests |\n|:------------:|:-----------:|:-----------:|:-----------:|:-----------:|\n"@
}

/// One row: name in bold, whole requests per second and request count with
/// thousands separators, latencies as printed.
pub open spec fn row_text(x: SampleView) -> Seq<char> {
    "|**"@ + x.name + "**|"@ + grouped(x.requests_per_second / 100) + "|"@ + x.average_latency + "|"@
        + x.max_latency + "|"@ + grouped(x.total_requests) + "|\n"@
}

pub open spec fn rows_text(g: Seq<SampleView>) -> Seq<char>
    decreases g.len(),
{
    if g.len() == 0 {
        Seq::empty()
    } else {
        rows_text(g.drop_last()) + row_text(g.last())
    }
}

pub open spec fn table_text(g: Seq<SampleView>) -> Seq<char> {
    table_header() + rows_text(g)
}

/// Renders a group as a table: the header, then one row per sample in order.
pub fn render_table(group: &Vec<MetricSample>) -> (r: String)
    ensures
        r@ == table_text(views(group@)),
{
    let mut out = String::new();
    out.append("|   **Name**   |   Req/sec   | Avg Latency | Max Latency |  # Requests |\n|:------------:|:-----------:|:-----------:|:-----------:|:-----------:|\n");
    let ghost g = views(group@);
    let mut i: usize = 0;
    assert(g.take(0) =~= Seq::<SampleView>::empty());
    while i < group.len()
        invariant
            i <= group.len(),
            g == views(group@),
            out@ == table_header() + rows_text(g.take(i as int)),
        decreases group.len() - i,
    {
        let x = &group[i];
        out.append("|**");
        out.append(x.name.as_str());
        out.append("**|");
        push_grouped(&mut out, x.requests_per_second / 100);
        out.append("|");
        out.append(x.average_latency.as_str());
        out.append("|");
        out.append(x.max_latency.as_str());
        out.append("|");
        push_grouped(&mut out, x.total_requests);
        out.append("|\n");
        assert(g.take(i + 1).drop_last() =~= g.take(i as int));
        assert(g[i as int] == x@);
        assert(out@ =~= table_header() + rows_text(g.take(i as int)) + row_text(x@));
        i = i + 1;
    }
    assert(g.take(i as int) =~= g);
    out
}

proof fn lemma_rows_split(a: Seq<SampleView>, b: Seq<SampleView>)
    ensures
        rows_text(a + b) == rows_text(a) + rows_text(b),
    decreases b.len(),
{
    if b.len() == 0 {
        assert(a + b =~= a);
        assert(rows_text(a) + rows_text(b) =~= rows_text(a));
    } else {
        lemma_rows_split(a, b.drop_last());
        assert((a + b).drop_last() =~= a + b.drop_last());
        assert((a + b).last() == b.last());
        assert(rows_text(a) + rows_text(b) =~= rows_text(a) + rows_text(b.drop_last()) + row_text(b.last()));
    }
}

/// Reading a table back: the table of a group holds the row of each sample,
/// and the numbers printed in that row, once the thousands separators are
/// removed, read back as the sample's whole requests per second and its
/// request count.
pub proof fn lemma_table_read_back(g: Seq<SampleView>, i: int)
    requires
        0 <= i < g.len(),
    ensures
        table_text(g) == table_header() + rows_text(g.take(i)) + row_text(g[i]) + rows_text(g.skip(i + 1)),
        digits_value(without_separators(grouped(g[i].requests_per_second / 100))) == g[i].requests_per_second / 100,
        digits_value(without_separators(grouped(g[i].total_requests))) == g[i].total_requests,
{
    assert(g =~= g.take(i) + (seq![g[i]] + g.skip(i + 1)));
    lemma_rows_split(g.take(i), seq![g[i]] + g.skip(i + 1));
    lemma_rows_split(seq![g[i]], g.skip(i + 1));
    let one = seq![g[i]];
    assert(one.drop_last() =~= Seq::<SampleView>::empty());
    assert(one.last() == g[i]);
    assert(rows_text(Seq::<SampleView>::empty()) == Seq::<char>::empty());
    assert(rows_text(one) == rows_text(one.drop_last()) + row_text(one.last()));
    assert(rows_text(one) =~= row_text(g[i]));
    assert(table_text(g) =~= table_header() + rows_text(g.take(i)) + row_text(g[i]) + rows_text(g.skip(i + 1)));
    lemma_grouped_round_trip(g[i].requests_per_second / 100);
    lemma_grouped_round_trip(g[i].total_requests);
}

pub open spec fn split_marker() -> Seq<char> {
    "==SPLIT=="@
}

pub open spec fn target_entry(x: Target) -> Seq<char> {
    "**["@ + x.name@ + "]("@ + x.url@ + ")**\n"@
}

pub open spec fn target_list(ts: Seq<Target>) -> Seq<char>
    decreases ts.len(),
{
    if ts.len() == 0 {
        Seq::empty()
    } else {
        target_list(ts.drop_last()) + target_entry(ts.last())
    }
}

/// The heading of one load level's section, then its table.
pub open spec fn level_section(level: LoadLevel, table: Seq<char>) -> Seq<char> {
    "|   Concurrency: "@ + decimal(level.concurrency as nat) + "   |   Duration: "@ + decimal(level.duration as nat)
        + " secs   |   Threads: "@ + decimal(level.threads as nat) + "   |\n"@
        + "|:-------------------:|:---------------------:|:--------------:|\n\n"@ + table + "\n\n"@
}

pub open spec fn level_sections(levels: Seq<LoadLevel>, tables: Seq<Seq<char>>) -> Seq<char>
    decreases levels.len(),
{
    if levels.len() == 0 || tables.len() == 0 {
        Seq::empty()
    } else {
        level_sections(levels.drop_last(), tables.drop_last()) + level_section(levels.last(), tables.last())
    }
}

/// The generated part of the report: the servers with their links, then one
/// section per load level.
pub open spec fn report_body(ts: Seq<Target>, levels: Seq<LoadLevel>, tables: Seq<Seq<char>>) -> Seq<char> {
    "## Frameworks included\n"@ + target_list(ts) + "# Results\n"@ + level_sections(levels, tables)
}

pub open spec fn table_views(tables: Seq<String>) -> Seq<Seq<char>> {
    tables.map_values(|s: String| s@)
}

/// The report: the template's text before its first split marker, a line
/// break, the generated part, a line break, and the text after the marker;
/// `None` when the template holds no marker.
pub open spec fn document_text(template: Seq<char>, body: Seq<char>) -> Option<Seq<char>> {
    match find_from(template, split_marker(), 0) {
        None => None,
        Some(p) => Some(
            template.subrange(0, p) + "\n"@ + body + "\n"@ + template.subrange(p + split_marker().len(), template.len() as int),
        ),
    }
}

/// Composes the report from `template`, the servers, and the table of each
/// load level (`tables[i]` for `levels[i]`).
pub fn render_document(
    template: &str,
    targets: &Vec<Target>,
    levels: &Vec<LoadLevel>,
    tables: &Vec<String>,
) -> (r: Option<String>)
    requires
        tables.len() == levels.len(),
    ensures
        r matches Some(doc) ==> document_text(template@, report_body(targets@, levels@, table_views(tables@))) == Some(doc@),
        r is None ==> document_text(template@, report_body(targets@, levels@, table_views(tables@))) is None,
{
    let t = chars_of(template);
    let marker = chars_of("==SPLIT==");
    let p = match find_marker(&t, &marker, 0) {
        None => {
            return None;
        },
        Some(p) => p,
    };
    let mut out = substring(&t, 0, p);
    out.append("\n");
    out.append("## Frameworks included\n");
    let ghost start = out@;
    let mut i: usize = 0;
    assert(targets@.take(0) =~= Seq::<Target>::empty());
    while i < targets.len()
        invariant
            i <= targets.len(),
            out@ == start + target_list(targets@.take(i as int)),
        decreases targets.len() - i,
    {
        let x = &targets[i];
        out.append("**[");
        out.append(x.name.as_str());
        out.append("](");
        out.append(x.url.as_str());
        out.append(")**\n");
        assert(targets@.take(i + 1).drop_last() =~= targets@.take(i as int));
        assert(out@ =~= start + target_list(targets@.take(i as int)) + target_entry(targets@[i as int]));
        i = i + 1;
    }
    assert(targets@.take(i as int) =~= targets@);
    out.append("# Results\n");
    let ghost mid = out@;
    let ghost tv = table_views(tables@);
    let mut j: usize = 0;
    assert(levels@.take(0) =~= Seq::<LoadLevel>::empty());
    while j < levels.len()
        invariant
            j <= levels.len(),
            tables.len() == levels.len(),
            tv == table_views(tables@),
            out@ == mid + level_sections(levels@.take(j as int), tv.take(j as int)),
        decreases levels.len() - j,
    {
        let level = levels[j];
        out.append("|   Concurrency: ");
        push_decimal(&mut out, level.concurrency as u64);
        out.append("   |   Duration: ");
        push_decimal(&mut out, level.duration as u64);
        out.append(" secs   |   Threads: ");
        push_decimal(&mut out, level.threads as u64);
        out.append("   |\n");
        out.append("|:-------------------:|:---------------------:|:--------------:|\n\n");
        out.append(tables[j].as_str());
        out.append("\n\n");
        assert(levels@.take(j + 1).drop_last() =~= levels@.take(j as int));
        assert(tv.take(j + 1).drop_last() =~= tv.take(j as int));
        assert(tv.take(j + 1).last() == tables@[j as int]@);
        assert(out@ =~= mid + level_sections(levels@.take(j as int), tv.take(j as int)) + level_section(levels@[j as int], tables@[j as int]@));
        j = j + 1;
    }
    assert(levels@.take(j as int) =~= levels@);
    assert(tv.take(j as int) =~= tv);
    out.append("\n");
    let after = substring(&t, p + marker.len(), t.len());
    out.append(after.as_str());
    proof {
        reveal_strlit("==SPLIT==");
    }
    assert(out@ =~= t@.subrange(0, p as int) + "\n"@ + report_body(targets@, levels@, tv) + "\n"@
        + t@.subrange(p + split_marker().len(), t@.len() as int));
    Some(out)
}

} // verus!
