//! Application-level state: the configuration, the errors of the
//! application layer, and the session state that the orchestrator works on.

use crate::jobs::{JobTable, Pool};
use vstd::prelude::*;
use vstd::string::*;

verus! {

/// Application-layer errors: a missing or invalid configuration, a missing
/// connection, a job-pool fault, or a storage fault.
#[derive(Debug)]
pub enum Error {
    MissingConnection(String),
    Config(String),
    JobPool(String),
    Storage(String),
}

/// The configuration of a client: its name (used as a first-level folder on
/// the server), the credentials of the server, and whether background
/// backups are allowed.
pub struct Config {
    pub client_name: String,
    pub username: String,
    pub server_address: String,
    pub server_port: u16,
    pub allow_background_backup: bool,
}

impl Clone for Config {
    fn clone(&self) -> (r: Self)
        ensures
            r == *self,
    {
        Config {
            client_name: self.client_name.clone(),
            username: self.username.clone(),
            server_address: self.server_address.clone(),
            server_port: self.server_port,
            allow_background_backup: self.allow_background_backup,
        }
    }
}

/// A decimal octet of a dotted-quad address: one to three digits, no
/// leading zero, value at most 255.
pub open spec fn spec_is_dec_octet(s: Seq<char>) -> bool {
    &&& 1 <= s.len() <= 3
    &&& (forall|i: int| 0 <= i < s.len() ==> '0' <= #[trigger] s[i] <= '9')
    &&& (s.len() > 1 ==> s[0] != '0')
    &&& (s.len() == 3 ==> (s[0] == '1' || (s[0] == '2' && (s[1] <= '4' || (s[1] == '5' && s[2]
        <= '5')))))
}

/// A dotted-quad address: four decimal octets joined by three dots.
pub open spec fn spec_is_ipv4(s: Seq<char>) -> bool {
    exists|a: int, b: int, c: int|
        #![trigger s[a], s[b], s[c]]
        {
            &&& 0 <= a < b < c < s.len()
            &&& s[a] == '.'
            &&& s[b] == '.'
            &&& s[c] == '.'
            &&& spec_is_dec_octet(s.subrange(0, a))
            &&& spec_is_dec_octet(s.subrange(a + 1, b))
            &&& spec_is_dec_octet(s.subrange(b + 1, c))
            &&& spec_is_dec_octet(s.subrange(c + 1, s.len() as int))
        }
}

/// Whether one octet of an address is well-formed, as `spec_is_dec_octet`
/// says.
fn is_dec_octet(s: &str) -> (r: bool)
    ensures
        r == spec_is_dec_octet(s@),
{
    let n: usize = s.unicode_len();
    if n < 1 || n > 3 {
        return false;
    }
    let mut i: usize = 0;
    while i < n
        invariant
            n == s@.len(),
            0 <= i <= n,
            forall|j: int| 0 <= j < i ==> '0' <= #[trigger] s@[j] <= '9',
        decreases n - i,
    {
        let ch: char = s.get_char(i);
        if ch < '0' || ch > '9' {
            return false;
        }
        i = i + 1;
    }
    if n > 1 && s.get_char(0) == '0' {
        return false;
    }
    if n == 3 {
        let first: char = s.get_char(0);
        let second: char = s.get_char(1);
        let third: char = s.get_char(2);
        if !(first == '1' || (first == '2' && (second <= '4' || (second == '5' && third <= '5')))) {
            return false;
        }
    }
    true
}

/// Whether an address is a well-formed dotted quad, as `spec_is_ipv4`
/// says.
pub fn is_ipv4_address(address: &String) -> (r: bool)
    ensures
        r == spec_is_ipv4(address@),
{
    let text: &str = address.as_str();
    let n: usize = text.unicode_len();
    let mut dots: Vec<usize> = Vec::new();
    let mut i: usize = 0;
    while i < n
        invariant
            text@ == address@,
            n == address@.len(),
            0 <= i <= n,
            forall|t: int| 0 <= t < dots@.len() ==> 0 <= #[trigger] dots@[t] < i,
            forall|t: int| 0 <= t < dots@.len() ==> address@[dots@[t] as int] == '.',
            forall|t1: int, t2: int| 0 <= t1 < t2 < dots@.len() ==> dots@[t1] < dots@[t2],
            forall|j: int|
                0 <= j < i && address@[j] == '.' ==> exists|t: int|
                    0 <= t < dots@.len() && dots@[t] == j,
        decreases n - i,
    {
        if text.get_char(i) == '.' {
            let ghost before = dots@;
            dots.push(i);
            proof {
                assert forall|j: int| 0 <= j < i + 1 && address@[j] == '.' implies exists|t: int|
                    0 <= t < dots@.len() && dots@[t] == j by {
                    if j < i as int {
                        let t = choose|t: int| 0 <= t < before.len() && before[t] == j;
                        assert(dots@[t] == j);
                    } else {
                        assert(dots@[dots@.len() - 1] == j);
                    }
                }
            }
        }
        i = i + 1;
    }
    if dots.len() != 3 {
        proof {
            if spec_is_ipv4(address@) {
                let (a, b, c) = choose|a: int, b: int, c: int|
                    #![trigger address@[a], address@[b], address@[c]]
                    {
                        &&& 0 <= a < b < c < address@.len()
                        &&& address@[a] == '.'
                        &&& address@[b] == '.'
                        &&& address@[c] == '.'
                        &&& spec_is_dec_octet(address@.subrange(0, a))
                        &&& spec_is_dec_octet(address@.subrange(a + 1, b))
                        &&& spec_is_dec_octet(address@.subrange(b + 1, c))
                        &&& spec_is_dec_octet(address@.subrange(c + 1, address@.len() as int))
                    };
                lemma_dots_are_exactly(address@, dots@, a, b, c);
            }
        }
        return false;
    }
    let a: usize = dots[0];
    let b: usize = dots[1];
    let c: usize = dots[2];
    proof {
        assert(dots@[0] < dots@[1]);
        assert(dots@[1] < dots@[2]);
        assert(dots@[2] < n);
        assert(address@[dots@[0] as int] == '.');
        assert(address@[dots@[1] as int] == '.');
        assert(address@[dots@[2] as int] == '.');
    }
    let first_ok = is_dec_octet(text.substring_char(0, a));
    let second_ok = is_dec_octet(text.substring_char(a + 1, b));
    let third_ok = is_dec_octet(text.substring_char(b + 1, c));
    let fourth_ok = is_dec_octet(text.substring_char(c + 1, n));
    let ok = first_ok && second_ok && third_ok && fourth_ok;
    proof {
        if ok {
            assert(address@[a as int] == '.');
            assert(address@[b as int] == '.');
            assert(address@[c as int] == '.');
            assert(spec_is_ipv4(address@));
        } else {
            if spec_is_ipv4(address@) {
                let (wa, wb, wc) = choose|wa: int, wb: int, wc: int|
                    #![trigger address@[wa], address@[wb], address@[wc]]
                    {
                        &&& 0 <= wa < wb < wc < address@.len()
                        &&& address@[wa] == '.'
                        &&& address@[wb] == '.'
                        &&& address@[wc] == '.'
                        &&& spec_is_dec_octet(address@.subrange(0, wa))
                        &&& spec_is_dec_octet(address@.subrange(wa + 1, wb))
                        &&& spec_is_dec_octet(address@.subrange(wb + 1, wc))
                        &&& spec_is_dec_octet(address@.subrange(wc + 1, address@.len() as int))
                    };
                lemma_dots_are_exactly(address@, dots@, wa, wb, wc);
                assert(wa == a as int && wb == b as int && wc == c as int);
            }
        }
    }
    ok
}

/// In a string whose dot positions are listed, in order and completely, a
/// dotted-quad decomposition's dots are exactly the three listed ones.
proof fn lemma_dots_are_exactly(s: Seq<char>, dots: Seq<usize>, a: int, b: int, c: int)
    requires
        forall|t: int| 0 <= t < dots.len() ==> 0 <= #[trigger] dots[t] < s.len(),
        forall|t: int| 0 <= t < dots.len() ==> s[#[trigger] dots[t] as int] == '.',
        forall|t1: int, t2: int| 0 <= t1 < t2 < dots.len() ==> dots[t1] < dots[t2],
        forall|j: int|
            0 <= j < s.len() && s[j] == '.' ==> exists|t: int| 0 <= t < dots.len() && dots[t] == j,
        0 <= a < b < c < s.len(),
        s[a] == '.',
        s[b] == '.',
        s[c] == '.',
        spec_is_dec_octet(s.subrange(0, a)),
        spec_is_dec_octet(s.subrange(a + 1, b)),
        spec_is_dec_octet(s.subrange(b + 1, c)),
        spec_is_dec_octet(s.subrange(c + 1, s.len() as int)),
    ensures
        dots.len() == 3,
        dots[0] == a,
        dots[1] == b,
        dots[2] == c,
{
    assert forall|j: int| 0 <= j < s.len() && s[j] == '.' implies j == a || j == b || j == c by {
        if j < a {
            assert(s.subrange(0, a)[j] == s[j]);
        } else if a < j < b {
            assert(s.subrange(a + 1, b)[j - (a + 1)] == s[j]);
        } else if b < j < c {
            assert(s.subrange(b + 1, c)[j - (b + 1)] == s[j]);
        } else if c < j {
            assert(s.subrange(c + 1, s.len() as int)[j - (c + 1)] == s[j]);
        }
    }
    let ta = choose|t: int| 0 <= t < dots.len() && dots[t] == a;
    let tb = choose|t: int| 0 <= t < dots.len() && dots[t] == b;
    let tc = choose|t: int| 0 <= t < dots.len() && dots[t] == c;
    assert(dots[ta] == a && dots[tb] == b && dots[tc] == c);
    assert(ta < tb) by {
        if tb < ta {
            assert(dots[tb] < dots[ta]);
        }
        if ta == tb {
            assert(dots[ta] == dots[tb]);
        }
    }
    assert(tb < tc) by {
        if tc < tb {
            assert(dots[tc] < dots[tb]);
        }
        if tb == tc {
            assert(dots[tb] == dots[tc]);
        }
    }
    assert(dots.len() >= 3);
    assert forall|t: int| 0 <= t < dots.len() implies dots[t] == a || dots[t] == b || dots[t]
        == c by {
        assert(s[dots[t] as int] == '.');
    }
    if dots.len() > 3 {
        assert(dots[0] < dots[1] < dots[2] < dots[3]);
        assert(dots[0] == a || dots[0] == b || dots[0] == c);
        assert(dots[1] == a || dots[1] == b || dots[1] == c);
        assert(dots[2] == a || dots[2] == b || dots[2] == c);
        assert(dots[3] == a || dots[3] == b || dots[3] == c);
        assert(false);
    }
    assert(0 <= ta < tb < tc < 3);
    assert(ta == 0 && tb == 1 && tc == 2);
}

/// The configuration is internally consistent: the port is positive and
/// the address is a dotted-quad IP address.
pub open spec fn spec_config_valid(c: Config) -> bool {
    &&& c.server_port >= 1
    &&& spec_is_ipv4(c.server_address@)
}

impl Config {
    /// Whether the configuration is internally consistent, as
    /// `spec_config_valid` says.
    pub fn is_valid(&self) -> (r: bool)
        ensures
            r == spec_config_valid(*self),
    {
        self.server_port >= 1 && is_ipv4_address(&self.server_address)
    }
}

/// The session state the orchestrator works on: the configuration, whether
/// a session-and-SFTP pair is open, the running and failed job registries,
/// the worker pool, and the platform directories.  The runtime guards the
/// real counterparts with mutexes; the operations here say how one
/// quiescent state follows from another.
pub struct AppState {
    pub config: Option<Config>,
    pub connected: bool,
    pub jobs: JobTable,
    pub failed_jobs: JobTable,
    pub pool: Pool,
    pub app_cache_dir: String,
    pub app_log_dir: String,
}

impl AppState {
    /// The session invariant: both registries are well-formed, the pool is
    /// well-formed, and no job id is at once running and failed.
    pub open spec fn inv(&self) -> bool {
        &&& self.jobs.wf()
        &&& self.failed_jobs.wf()
        &&& self.pool.wf()
        &&& forall|k: Seq<char>|
            !(#[trigger] self.jobs.spec_contains(k) && self.failed_jobs.spec_contains(k))
    }

    /// A fresh session: no configuration, no connection, no jobs, and a
    /// pool of `pool_size` workers (none when absent).
    pub fn new(pool_size: Option<usize>, app_cache_dir: String, app_log_dir: String) -> (r:
        AppState)
        ensures
            r.inv(),
            r.config is None,
            !r.connected,
            r.jobs@.len() == 0,
            r.failed_jobs@.len() == 0,
            forall|k: Seq<char>| !r.jobs.spec_contains(k),
            forall|k: Seq<char>| !r.failed_jobs.spec_contains(k),
            r.pool.workers@.len() == match pool_size {
                Some(n) => n as int,
                None => 0int,
            },
            r.app_cache_dir == app_cache_dir,
            r.app_log_dir == app_log_dir,
    {
        AppState {
            config: None,
            connected: false,
            jobs: JobTable::new(),
            failed_jobs: JobTable::new(),
            pool: Pool::new(pool_size),
            app_cache_dir,
            app_log_dir,
        }
    }
}

} // verus!
