//! A small literal-pattern text search: argument parsing, line matching,
//! directory traversal decisions and message rendering, with their
//! contracts proved.
use vstd::prelude::*;

pub mod config;
pub mod error;
pub mod text;
pub mod utils;
pub mod walk;

use crate::config::Config;
use crate::error::GrepError;
use crate::text::{chars_of, string_views};

verus! {

/// One search: its pattern, its target path and its toggles.
pub struct Grep {
    pub path: String,
    pub pattern: String,
    pub config: Config,
}

/// What a search does with its target.
#[derive(Debug, Clone, Copy, PartialEq, Eq, Structural)]
pub enum SearchMode {
    /// Print the matching lines of one file.
    ListFile,
    /// Print the number of matching lines of one file.
    CountFile,
    /// Print the matching lines of every file collected from a directory.
    ListDir,
    /// Print the total number of matching lines of the collected files.
    CountDir,
}

/// An argument that starts with `-` is an option.
pub open spec fn is_option(a: Seq<char>) -> bool {
    a.len() > 0 && a[0] == '-'
}

pub open spec fn opt_r() -> Seq<char> {
    seq!['-', 'r']
}

pub open spec fn opt_rf() -> Seq<char> {
    seq!['-', 'r', 'f']
}

pub open spec fn opt_n() -> Seq<char> {
    seq!['-', 'n']
}

pub open spec fn opt_c() -> Seq<char> {
    seq!['-', 'c']
}

pub open spec fn known_option(a: Seq<char>) -> bool {
    a == opt_r() || a == opt_rf() || a == opt_n() || a == opt_c()
}

/// The argument at `i` is an option that is not recognised.
pub open spec fn unknown_at(args: Seq<Seq<char>>, i: int) -> bool {
    is_option(args[i]) && !known_option(args[i])
}

/// The arguments that are not options, in order.
pub open spec fn positionals(args: Seq<Seq<char>>) -> Seq<Seq<char>>
    decreases args.len(),
{
    if args.len() == 0 {
        Seq::empty()
    } else {
        let r = positionals(args.drop_last());
        if is_option(args.last()) {
            r
        } else {
            r.push(args.last())
        }
    }
}

/// The toggles that the options among `args` switch on.
pub open spec fn config_of(args: Seq<Seq<char>>) -> Config {
    Config {
        lines: args.contains(opt_n()),
        recursive: args.contains(opt_r()),
        full_recursive: args.contains(opt_rf()),
        count: args.contains(opt_c()),
    }
}

/// The outcome of parsing `args` (the arguments after the program name):
/// the first unrecognised option is an error; otherwise exactly two
/// positional arguments, the pattern and the path, are required.
pub open spec fn parse_ok(args: Seq<Seq<char>>, r: Result<Grep, GrepError>) -> bool {
    match r {
        Ok(g) => {
            &&& forall|i: int| 0 <= i < args.len() ==> !#[trigger] unknown_at(args, i)
            &&& positionals(args).len() == 2
            &&& g.pattern@ == positionals(args)[0]
            &&& g.path@ == positionals(args)[1]
            &&& g.config == config_of(args)
        },
        Err(GrepError::OptionError(t)) => exists|i: int|
            0 <= i < args.len() && #[trigger] unknown_at(args, i) && (forall|j: int|
                0 <= j < i ==> !#[trigger] unknown_at(args, j)) && t@ == args[i],
        Err(GrepError::ArgError(expected, received)) => {
            &&& forall|i: int| 0 <= i < args.len() ==> !#[trigger] unknown_at(args, i)
            &&& expected == 2
            &&& received == positionals(args).len()
            &&& received != 2
        },
        _ => false,
    }
}

impl Grep {
    /// An empty search: empty pattern and path, all toggles off.
    pub fn new() -> (r: Grep)
        ensures
            r.path@ == Seq::<char>::empty(),
            r.pattern@ == Seq::<char>::empty(),
            r.config == (Config {
                lines: false,
                recursive: false,
                full_recursive: false,
                count: false,
            }),
    {
        Grep { path: String::new(), pattern: String::new(), config: Config::new() }
    }

    /// Parses the command-line arguments that follow the program name.
    /// Options may stand anywhere; `-r`, `-rf`, `-n` and `-c` are known.
    pub fn from(args: &Vec<String>) -> (r: Result<Grep, GrepError>)
        ensures
            parse_ok(string_views(args@), r),
    {
        let ghost a = string_views(args@);
        let mut grep = Grep::new();
        let mut arg_count: usize = 0;
        let mut i: usize = 0;
        proof {
            assert(a.subrange(0, 0) =~= Seq::<Seq<char>>::empty());
        }
        while i < args.len()
            invariant
                a == string_views(args@),
                i <= args@.len(),
                forall|k: int| 0 <= k < i ==> !#[trigger] unknown_at(a, k),
                arg_count == positionals(a.subrange(0, i as int)).len(),
                arg_count <= i,
                arg_count >= 1 ==> grep.pattern@ == positionals(a.subrange(0, i as int))[0],
                arg_count >= 2 ==> grep.path@ == positionals(a.subrange(0, i as int))[1],
                grep.config == config_of(a.subrange(0, i as int)),
            decreases args.len() - i,
        {
            let ghost pre = a.subrange(0, i as int);
            let ghost next = a.subrange(0, i + 1);
            proof {
                assert(next.drop_last() =~= pre);
                assert(next.last() == a[i as int]);
                assert(a[i as int] == args@[i as int]@);
            }
            let arg = &args[i];
            let cs = chars_of(arg.as_str());
            if cs.len() > 0 && cs[0] == '-' {
                let n = cs.len();
                let is_r = n == 2 && cs[1] == 'r';
                let is_rf = n == 3 && cs[1] == 'r' && cs[2] == 'f';
                let is_n = n == 2 && cs[1] == 'n';
                let is_c = n == 2 && cs[1] == 'c';
                proof {
                    assert(is_r <==> cs@ =~= opt_r());
                    assert(is_rf <==> cs@ =~= opt_rf());
                    assert(is_n <==> cs@ =~= opt_n());
                    assert(is_c <==> cs@ =~= opt_c());
                }
                if !(is_r || is_rf || is_n || is_c) {
                    proof {
                        assert(unknown_at(a, i as int));
                    }
                    return Err(GrepError::OptionError(arg.clone()));
                }
                if is_r {
                    grep.config.recursive = true;
                } else if is_rf {
                    grep.config.full_recursive = true;
                } else if is_n {
                    grep.config.lines = true;
                } else {
                    grep.config.count = true;
                }
                proof {
                    assert(positionals(next) == positionals(pre));
                    assert forall|s: Seq<char>| next.contains(s) <==> pre.contains(s) || s == a[i as int] by {
                        if next.contains(s) {
                            let k = choose|k: int| 0 <= k < next.len() && next[k] == s;
                            if k < i {
                                assert(pre[k] == s);
                            }
                        }
                        if pre.contains(s) {
                            let k = choose|k: int| 0 <= k < pre.len() && pre[k] == s;
                            assert(next[k] == s);
                        }
                        if s == a[i as int] {
                            assert(next[i as int] == s);
                        }
                    }
                    assert(grep.config == config_of(next));
                }
            } else {
                if arg_count == 0 {
                    grep.pattern = arg.clone();
                } else if arg_count == 1 {
                    grep.path = arg.clone();
                }
                arg_count = arg_count + 1;
                proof {
                    assert(positionals(next) == positionals(pre).push(a[i as int]));
                    assert forall|s: Seq<char>| next.contains(s) <==> pre.contains(s) || s == a[i as int] by {
                        if next.contains(s) {
                            let k = choose|k: int| 0 <= k < next.len() && next[k] == s;
                            if k < i {
                                assert(pre[k] == s);
                            }
                        }
                        if pre.contains(s) {
                            let k = choose|k: int| 0 <= k < pre.len() && pre[k] == s;
                            assert(next[k] == s);
                        }
                        if s == a[i as int] {
                            assert(next[i as int] == s);
                        }
                    }
                    assert(!known_option(a[i as int]));
                    assert(grep.config == config_of(next));
                }
            }
            i = i + 1;
        }
        proof {
            assert(a.subrange(0, args@.len() as int) =~= a);
        }
        if arg_count != 2 {
            return Err(GrepError::ArgError(2, arg_count));
        }
        Ok(grep)
    }

    /// What this search does: directories are walked when either recursive
    /// toggle is on; counting replaces listing when `count` is on.
    pub fn mode(&self) -> (r: SearchMode)
        ensures
            r == (if self.config.recursive || self.config.full_recursive {
                if self.config.count {
                    SearchMode::CountDir
                } else {
                    SearchMode::ListDir
                }
            } else if self.config.count {
                SearchMode::CountFile
            } else {
                SearchMode::ListFile
            }),
    {
        if self.config.recursive || self.config.full_recursive {
            if self.config.count {
                SearchMode::CountDir
            } else {
                SearchMode::ListDir
            }
        } else if self.config.count {
            SearchMode::CountFile
        } else {
            SearchMode::ListFile
        }
    }
}

} // verus!
