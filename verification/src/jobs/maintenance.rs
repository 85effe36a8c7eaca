//! Maintenance: which glob patterns a cleaning run removes, from the base
//! directories and the chosen options.

use vstd::prelude::*;
use vstd::string::*;
use crate::paths;

verus! {

/// What a cleaning run removes: stale connection sockets, the daemon's
/// control files, and logs.
#[derive(Clone, Copy, PartialEq, Eq, Structural)]
pub struct Options {
    pub connections: bool,
    pub daemon: bool,
    pub logs: bool,
}

impl Default for Options {
    /// By default only logs are cleaned.
    fn default() -> (r: Self)
        ensures
            r == (Options { connections: false, daemon: false, logs: true }),
    {
        Options { connections: false, daemon: false, logs: true }
    }
}

/// The base directories a cleaning run works under.
pub struct Directories {
    pub cache: String,
    pub log: String,
}

/// The patterns a cleaning run with these options removes, in order:
/// connection sockets under the cache, the daemon's files under the cache,
/// and logs under the log directory.
pub open spec fn spec_clean_patterns(cache: Seq<char>, log: Seq<char>, o: Options) -> Seq<
    Seq<char>,
> {
    (if o.connections {
        seq![cache + "/.ssh-connection*"@]
    } else {
        Seq::<Seq<char>>::empty()
    }) + (if o.daemon {
        seq![cache + "/daemon/*"@]
    } else {
        Seq::<Seq<char>>::empty()
    }) + (if o.logs {
        seq![log + "/*.log"@]
    } else {
        Seq::<Seq<char>>::empty()
    })
}

/// The glob patterns that a cleaning run removes, as `spec_clean_patterns`
/// says; absent options default to cleaning only logs.
pub fn clean(directories: &Directories, opts: Option<Options>) -> (patterns: Vec<String>)
    ensures
        patterns@.map_values(|s: String| s@) == spec_clean_patterns(
            directories.cache@,
            directories.log@,
            match opts {
                Some(o) => o,
                None => Options { connections: false, daemon: false, logs: true },
            },
        ),
{
    let options = match opts {
        Some(o) => o,
        None => Options::default(),
    };
    let mut patterns: Vec<String> = Vec::new();
    if options.connections {
        patterns.push(paths::concat2(directories.cache.as_str(), "/.ssh-connection*"));
    }
    if options.daemon {
        patterns.push(paths::concat2(directories.cache.as_str(), "/daemon/*"));
    }
    if options.logs {
        patterns.push(paths::concat2(directories.log.as_str(), "/*.log"));
    }
    proof {
        assert(patterns@.map_values(|s: String| s@) =~= spec_clean_patterns(
            directories.cache@,
            directories.log@,
            options,
        ));
    }
    patterns
}

} // verus!
