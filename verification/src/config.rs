//! The search configuration, built once per run from plain command-line
//! values: the target path, the query (the remaining arguments joined
//! with single spaces), the kind of the target, and the case mode.

use vstd::prelude::*;

verus! {

/// The kind of the target path: a single file or a directory root.
pub enum InputType {
    File,
    Directory,
}

/// One run's configuration. No field changes after construction.
pub struct Config {
    /// The query string; never empty.
    pub query: String,
    /// The target path as given on the command line.
    pub name: String,
    /// Whether the target is a file or a directory.
    pub input_type: InputType,
    /// True for case-sensitive search (the default mode).
    pub case_sensitive: bool,
}

/// Why a configuration could not be built.
#[derive(Debug, PartialEq, Eq)]
pub enum ConfigError {
    /// No path argument was given.
    MissingPath,
    /// The query arguments, joined, were empty.
    EmptyQuery,
}

impl ConfigError {
    /// The human-readable message reported for this error.
    pub fn message(&self) -> (r: &'static str)
        ensures
            self is MissingPath ==> r@ == "Didn't get a file or folder name"@,
            self is EmptyQuery ==> r@ == "Didn't get a query"@,
    {
        match self {
            ConfigError::MissingPath => "Didn't get a file or folder name",
            ConfigError::EmptyQuery => "Didn't get a query",
        }
    }
}

/// The parts joined with single spaces: empty for no parts, the one part
/// alone, and otherwise the join of all but the last, a space, and the
/// last.
pub open spec fn join_spaces(parts: Seq<Seq<char>>) -> Seq<char>
    decreases parts.len(),
{
    if parts.len() == 0 {
        Seq::empty()
    } else if parts.len() == 1 {
        parts[0]
    } else {
        join_spaces(parts.drop_last()) + seq![' '] + parts.last()
    }
}

/// Joins `args[start..]` with single spaces.
fn join_query(args: &Vec<String>, start: usize) -> (r: String)
    requires
        start <= args@.len(),
    ensures
        r@ == join_spaces(args@.skip(start as int).map_values(|s: String| s@)),
{
    let ghost parts = args@.skip(start as int).map_values(|s: String| s@);
    let mut r = String::new();
    if start >= args.len() {
        proof {
            assert(parts.len() == 0);
        }
        return r;
    }
    let mut i: usize = start;
    while i < args.len()
        invariant
            start <= i <= args@.len(),
            parts == args@.skip(start as int).map_values(|s: String| s@),
            r@ == join_spaces(
                args@.subrange(start as int, i as int).map_values(|s: String| s@),
            ),
        decreases args@.len() - i,
    {
        let ghost before = args@.subrange(start as int, i as int).map_values(|s: String| s@);
        let ghost after = args@.subrange(start as int, i as int + 1).map_values(|s: String| s@);
        proof {
            assert(after.drop_last() =~= before);
            assert(after.last() == args@[i as int]@);
        }
        if i > start {
            r.append(" ");
            proof {
                reveal_strlit(" ");
                assert(" "@ =~= seq![' ']);
            }
        }
        r.append(args[i].as_str());
        proof {
            if i == start {
                assert(after.len() == 1);
                assert(r@ =~= after[0]);
            } else {
                assert(r@ =~= join_spaces(before) + seq![' '] + after.last());
            }
        }
        i = i + 1;
    }
    proof {
        assert(args@.subrange(start as int, args@.len() as int) =~= args@.skip(start as int));
    }
    r
}

impl Config {
    /// Builds the configuration from the command-line arguments (the
    /// program name first), the externally-resolved kind of the target
    /// path, and the case mode. Fails with `MissingPath` when no path
    /// argument was given, and with `EmptyQuery` when the remaining
    /// arguments join to an empty query.
    pub fn new(args: &Vec<String>, is_file: bool, case_sensitive: bool) -> (r: Result<
        Config,
        ConfigError,
    >)
        ensures
            match r {
                Ok(c) => {
                    &&& args@.len() >= 2
                    &&& join_spaces(args@.skip(2).map_values(|s: String| s@)).len() > 0
                    &&& c.name@ == args@[1]@
                    &&& c.query@ == join_spaces(args@.skip(2).map_values(|s: String| s@))
                    &&& c.case_sensitive == case_sensitive
                    &&& (c.input_type is File <==> is_file)
                },
                Err(e) => {
                    ||| (args@.len() < 2 && e is MissingPath)
                    ||| (args@.len() >= 2 && join_spaces(
                        args@.skip(2).map_values(|s: String| s@),
                    ).len() == 0 && e is EmptyQuery)
                },
            },
    {
        if args.len() < 2 {
            return Err(ConfigError::MissingPath);
        }
        let query = join_query(args, 2);
        if query.as_str().unicode_len() == 0 {
            return Err(ConfigError::EmptyQuery);
        }
        let name = args[1].clone();
        let input_type = if is_file {
            InputType::File
        } else {
            InputType::Directory
        };
        Ok(Config { query, name, input_type, case_sensitive })
    }
}

} // verus!
