//! The benchmarked servers and the load levels applied to each.
use vstd::prelude::*;
use crate::text::{decimal, push_decimal};

verus! {

/// A server under test.
#[derive(Debug, Clone)]
pub struct Target {
    pub name: String,
    pub port: u32,
    /// The executable's name, under the release build directory.
    pub binary: String,
    /// Where the server's project is documented.
    pub url: String,
}

/// One intensity of load: simulated clients, driver threads, and seconds.
#[derive(Debug, Clone, Copy, PartialEq, Eq, Structural)]
pub struct LoadLevel {
    pub concurrency: u32,
    pub threads: u8,
    pub duration: u32,
}

/// The server's executable: `target/release/<binary>`.
pub fn server_program(target: &Target) -> (r: String)
    ensures
        r@ == "target/release/"@ + target.binary@,
{
    let mut r = String::new();
    r.append("target/release/");
    r.append(target.binary.as_str());
    r
}

/// The server's one argument: its port.
pub fn server_argument(target: &Target) -> (r: String)
    ensures
        r@ == decimal(target.port as nat),
{
    let mut r = String::new();
    push_decimal(&mut r, target.port as u64);
    assert(r@ =~= decimal(target.port as nat));
    r
}

/// The directory of the server's records: `perf/<binary>`.
pub fn output_dir(target: &Target) -> (r: String)
    ensures
        r@ == "perf/"@ + target.binary@,
{
    let mut r = String::new();
    r.append("perf/");
    r.append(target.binary.as_str());
    r
}

/// The record of the server at a level: `perf/<binary>/<concurrency>.txt`.
pub fn record_path(target: &Target, level: LoadLevel) -> (r: String)
    ensures
        r@ == "perf/"@ + target.binary@ + "/"@ + decimal(level.concurrency as nat) + ".txt"@,
{
    let mut r = output_dir(target);
    r.append("/");
    push_decimal(&mut r, level.concurrency as u64);
    r.append(".txt");
    r
}

/// The table of a level: `results-<concurrency>.md`.
pub fn table_path(level: LoadLevel) -> (r: String)
    ensures
        r@ == "results-"@ + decimal(level.concurrency as nat) + ".md"@,
{
    let mut r = String::new();
    r.append("results-");
    push_decimal(&mut r, level.concurrency as u64);
    r.append(".md");
    r
}

/// The load driver's arguments: `-d<duration>s -t<threads> -c<concurrency>
/// http://localhost:<port>`.
pub fn load_driver_args(target: &Target, level: LoadLevel) -> (r: Vec<String>)
    ensures
        r@.len() == 4,
        r@[0]@ == "-d"@ + decimal(level.duration as nat) + "s"@,
        r@[1]@ == "-t"@ + decimal(level.threads as nat),
        r@[2]@ == "-c"@ + decimal(level.concurrency as nat),
        r@[3]@ == "http://localhost:"@ + decimal(target.port as nat),
{
    let mut d = String::new();
    d.append("-d");
    push_decimal(&mut d, level.duration as u64);
    d.append("s");
    let mut t = String::new();
    t.append("-t");
    push_decimal(&mut t, level.threads as u64);
    let mut c = String::new();
    c.append("-c");
    push_decimal(&mut c, level.concurrency as u64);
    let mut u = String::new();
    u.append("http://localhost:");
    push_decimal(&mut u, target.port as u64);
    let mut r = Vec::new();
    r.push(d);
    r.push(t);
    r.push(c);
    r.push(u);
    r
}

/// The progress line for a server at a level.
pub fn progress_line(target: &Target, level: LoadLevel) -> (r: String)
    ensures
        r@ == "\n["@ + target.name@ + "] - Concurrency ("@ + decimal(level.concurrency as nat) + ") | Threads ("@
            + decimal(level.threads as nat) + ") | Duration ("@ + decimal(level.duration as nat) + ")"@,
{
    let mut r = String::new();
    r.append("\n[");
    r.append(target.name.as_str());
    r.append("] - Concurrency (");
    push_decimal(&mut r, level.concurrency as u64);
    r.append(") | Threads (");
    push_decimal(&mut r, level.threads as u64);
    r.append(") | Duration (");
    push_decimal(&mut r, level.duration as u64);
    r.append(")");
    r
}

} // verus!
