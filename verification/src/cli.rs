//! The command line: which arguments are nocruft's own, which are the child's.

use crate::outside;
use crate::text;
use crate::text::{text_eq, text_starts_with};
use vstd::prelude::*;
use vstd::string::*;

verus! {

/// The options that start with `--nc-`.
#[derive(Debug)]
pub struct NocruftFlags {
    /// One JSON object per line for each event, instead of the plain summary.
    pub json: bool,
    /// Keep paths that no longer exist.
    pub include_deleted: bool,
    /// One entry per captured event.
    pub no_dedupe: bool,
    /// Debug-level logging.
    pub verbose: bool,
    /// Say what would be deleted, and delete nothing.
    pub dry_run_delete: bool,
    /// Ask which of the created paths to delete.
    pub delete_interactive: bool,
    /// Delete every reported path without asking.
    pub delete_dangerous: bool,
    /// Keep paths of pseudo file systems.
    pub include_system: bool,
    /// Keep files that existed before and were only modified.
    pub include_modified: bool,
    /// Keep the history files of shells and interpreters.
    pub include_history: bool,
    /// Keep build artifacts.
    pub include_build: bool,
    /// Patterns of paths to drop.
    pub exclude: Vec<String>,
    /// Patterns of paths to keep in any case (`--nc-include`).
    pub force_include: Vec<String>,
    /// The program to run instead of `nix-shell`.
    pub exec_prog: Option<String>,
}

impl Default for NocruftFlags {
    /// Every option off, no patterns, no program.
    fn default() -> (r: NocruftFlags)
        ensures
            !r.json && !r.no_dedupe && !r.verbose,
            !r.dry_run_delete && !r.delete_interactive && !r.delete_dangerous,
            !r.include_deleted && !r.include_system && !r.include_modified,
            !r.include_history && !r.include_build,
            r.exclude@.len() == 0 && r.force_include@.len() == 0,
            r.exec_prog is None,
    {
        NocruftFlags {
            json: false,
            include_deleted: false,
            no_dedupe: false,
            verbose: false,
            dry_run_delete: false,
            delete_interactive: false,
            delete_dangerous: false,
            include_system: false,
            include_modified: false,
            include_history: false,
            include_build: false,
            exclude: Vec::new(),
            force_include: Vec::new(),
            exec_prog: None,
        }
    }
}

/// What is wrong with a command line.
#[derive(Debug)]
pub enum CliError {
    /// An option that takes a value is the last argument.
    MissingValue { flag: String },
    /// A pattern does not compile; `detail` says why.
    InvalidPattern { option: &'static str, pattern: String, detail: String },
}

/// The text of an error of the command line.
pub open spec fn error_text(e: CliError) -> Seq<char> {
    match e {
        CliError::MissingValue { flag } => "flag "@ + flag@ + " requires a value"@,
        CliError::InvalidPattern { option, pattern, detail } => "invalid "@ + option@ + " pattern "@
            + outside::debug_quoted(pattern@) + ": "@ + detail@,
    }
}

impl CliError {
    /// The text of the error.
    pub fn message(&self) -> (r: String)
        ensures
            r@ == error_text(*self),
    {
        match self {
            CliError::MissingValue { flag } => {
                let mut r = "flag ".to_string();
                r.append(flag.as_str());
                r.append(" requires a value");
                r
            },
            CliError::InvalidPattern { option, pattern, detail } => {
                let mut r = "invalid ".to_string();
                r.append(option);
                r.append(" pattern ");
                r.append(outside::quote(pattern.as_str()).as_str());
                r.append(": ");
                r.append(detail.as_str());
                r
            },
        }
    }
}

/// The compiled patterns of `--nc-include` and `--nc-exclude`.
#[derive(Debug)]
pub struct PatternSet {
    pub includes: Vec<glob::Pattern>,
    pub excludes: Vec<glob::Pattern>,
}

/// A command line, cut in two.
#[derive(Debug)]
pub struct RoutedArgs {
    /// The arguments that are nocruft's own.
    pub nc_args: Vec<String>,
    /// The arguments of the child.
    pub child_args: Vec<String>,
}

/// A command line, read to its end.
#[derive(Debug)]
pub struct Parsed {
    pub flags: NocruftFlags,
    /// The arguments of the child.
    pub child_args: Vec<String>,
    /// The program to run.
    pub child_prog: String,
    /// The compiled patterns.
    pub patterns: PatternSet,
}

/// An option that takes the next argument as its value.
pub open spec fn takes_value(tok: Seq<char>) -> bool {
    tok == "--nc-exec"@ || tok == "--nc-exclude"@ || tok == "--nc-include"@
}

/// An option that is nocruft's own although it lacks the prefix.
pub open spec fn is_bare_flag(tok: Seq<char>) -> bool {
    tok == "--help"@ || tok == "-h"@ || tok == "--version"@ || tok == "-V"@
}

/// An argument that is nocruft's own.
pub open spec fn is_own(tok: Seq<char>) -> bool {
    is_bare_flag(tok) || "--nc-"@.is_prefix_of(tok)
}

/// A command line, cut in two.
pub struct Route {
    pub nc: Seq<Seq<char>>,
    pub child: Seq<Seq<char>>,
}

/// How the arguments are dealt out, or the option that lacks its value.
///
/// From left to right: an argument of nocruft's own goes to nocruft, together
/// with its value if it takes one; a first `--` is dropped and everything behind
/// it belongs to the child; any other argument belongs to the child.
pub open spec fn routed(argv: Seq<Seq<char>>) -> Result<Route, Seq<char>>
    decreases argv.len(),
{
    if argv.len() == 0 {
        Ok(Route { nc: Seq::empty(), child: Seq::empty() })
    } else if argv[0] == "--"@ {
        Ok(Route { nc: Seq::empty(), child: argv.skip(1) })
    } else if takes_value(argv[0]) {
        if argv.len() == 1 {
            Err(argv[0])
        } else {
            match routed(argv.skip(2)) {
                Ok(rest) => Ok(Route { nc: argv.take(2) + rest.nc, child: rest.child }),
                Err(flag) => Err(flag),
            }
        }
    } else {
        match routed(argv.skip(1)) {
            Ok(rest) => if is_own(argv[0]) {
                Ok(Route { nc: argv.take(1) + rest.nc, child: rest.child })
            } else {
                Ok(Route { nc: rest.nc, child: argv.take(1) + rest.child })
            },
            Err(flag) => Err(flag),
        }
    }
}

fn token_takes_value(tok: &str) -> (r: bool)
    ensures
        r == takes_value(tok@),
{
    text_eq(tok, "--nc-exec") || text_eq(tok, "--nc-exclude") || text_eq(tok, "--nc-include")
}

fn token_is_own(tok: &str) -> (r: bool)
    ensures
        r == is_own(tok@),
{
    text_eq(tok, "--help") || text_eq(tok, "-h") || text_eq(tok, "--version") || text_eq(tok, "-V")
        || text_starts_with(tok, "--nc-")
}

/// What has been dealt out so far, and what the rest will add to it.
spec fn routed_behind(nc: Seq<Seq<char>>, child: Seq<Seq<char>>, rest: Seq<Seq<char>>) -> Result<
    Route,
    Seq<char>,
> {
    match routed(rest) {
        Ok(tail) => Ok(Route { nc: nc + tail.nc, child: child + tail.child }),
        Err(flag) => Err(flag),
    }
}

proof fn lemma_texts_push(list: Seq<String>, s: String)
    ensures
        text::texts(list.push(s)) == text::texts(list).push(s@),
{
    assert(text::texts(list.push(s)) =~= text::texts(list).push(s@));
}

/// Deals the arguments out between nocruft and the child.
pub fn parse_argv(argv: Vec<String>) -> (r: Result<RoutedArgs, CliError>)
    ensures
        match r {
            Ok(args) => routed(text::texts(argv@)) == Ok::<Route, Seq<char>>(
                Route { nc: text::texts(args.nc_args@), child: text::texts(args.child_args@) },
            ),
            Err(CliError::MissingValue { flag }) => routed(text::texts(argv@)) == Err::<
                Route,
                Seq<char>,
            >(flag@),
            Err(CliError::InvalidPattern { .. }) => false,
        },
{
    let ghost all = text::texts(argv@);
    let mut nc: Vec<String> = Vec::new();
    let mut child: Vec<String> = Vec::new();
    let mut i: usize = 0;
    let mut after_separator = false;
    proof {
        assert(all.skip(0) =~= all);
        assert(text::texts(nc@) =~= Seq::empty());
        assert(text::texts(child@) =~= Seq::empty());
        if let Ok(tail) = routed(all) {
            assert(Seq::<Seq<char>>::empty() + tail.nc =~= tail.nc);
            assert(Seq::<Seq<char>>::empty() + tail.child =~= tail.child);
        }
    }
    while i < argv.len()
        invariant
            i <= argv.len(),
            all == text::texts(argv@),
            all.len() == argv.len(),
            !after_separator ==> routed(all) == routed_behind(
                text::texts(nc@),
                text::texts(child@),
                all.skip(i as int),
            ),
            after_separator ==> routed(all) == Ok::<Route, Seq<char>>(
                Route { nc: text::texts(nc@), child: text::texts(child@) + all.skip(i as int) },
            ),
        decreases argv.len() - i,
    {
        let tok = &argv[i];
        let ghost n = text::texts(nc@);
        let ghost c = text::texts(child@);
        let ghost rest = all.skip(i as int);
        proof {
            assert(rest[0] == tok@);
            assert(rest.skip(1) =~= all.skip(i + 1));
            assert(rest.take(1) =~= seq![tok@]);
            lemma_texts_push(nc@, *tok);
            lemma_texts_push(child@, *tok);
        }
        if after_separator {
            child.push(tok.clone());
            assert(c + rest =~= c.push(tok@) + all.skip(i + 1));
            i = i + 1;
        } else if text_eq(tok.as_str(), "--") {
            after_separator = true;
            assert(n + Seq::<Seq<char>>::empty() =~= n);
            i = i + 1;
        } else if token_takes_value(tok.as_str()) {
            nc.push(tok.clone());
            if i + 1 >= argv.len() {
                return Err(CliError::MissingValue { flag: tok.clone() });
            }
            proof {
                let value = argv@[i + 1];
                lemma_texts_push(nc@, value);
                assert(rest[1] == value@);
                assert(rest.take(2) =~= seq![tok@, value@]);
                assert(rest.skip(2) =~= all.skip(i + 2));
                if let Ok(tail) = routed(all.skip(i + 2)) {
                    assert(n + (rest.take(2) + tail.nc) =~= n.push(tok@).push(value@) + tail.nc);
                }
            }
            nc.push(argv[i + 1].clone());
            i = i + 2;
        } else if token_is_own(tok.as_str()) {
            nc.push(tok.clone());
            proof {
                if let Ok(tail) = routed(all.skip(i + 1)) {
                    assert(n + (rest.take(1) + tail.nc) =~= n.push(tok@) + tail.nc);
                }
            }
            i = i + 1;
        } else {
            child.push(tok.clone());
            proof {
                if let Ok(tail) = routed(all.skip(i + 1)) {
                    assert(c + (rest.take(1) + tail.child) =~= c.push(tok@) + tail.child);
                }
            }
            i = i + 1;
        }
    }
    proof {
        assert(all.skip(i as int) =~= Seq::empty());
        assert(text::texts(nc@) + Seq::<Seq<char>>::empty() =~= text::texts(nc@));
        assert(text::texts(child@) + Seq::<Seq<char>>::empty() =~= text::texts(child@));
    }
    Ok(RoutedArgs { nc_args: nc, child_args: child })
}

/// A pattern text compiles.
pub open spec fn compiles(pattern: Seq<char>) -> bool {
    outside::glob_compile(pattern) is Ok
}

/// The compiled form of each pattern text.
pub open spec fn compiled(patterns: Seq<Seq<char>>) -> Seq<glob::Pattern> {
    patterns.map_values(|p: Seq<char>| outside::glob_compile(p)->Ok_0)
}

/// `k` is the position of the first pattern text that does not compile.
pub open spec fn first_bad(patterns: Seq<Seq<char>>, k: int) -> bool {
    &&& 0 <= k < patterns.len()
    &&& !compiles(patterns[k])
    &&& forall|i: int| 0 <= i < k ==> compiles(#[trigger] patterns[i])
}

/// The error about the pattern at position `k`.
pub open spec fn is_pattern_error(
    e: CliError,
    option: Seq<char>,
    patterns: Seq<Seq<char>>,
    k: int,
) -> bool {
    e matches CliError::InvalidPattern { option: o, pattern: p, detail: d } && o@ == option && p@
        == patterns[k] && outside::glob_compile(patterns[k]) is Err && d@ == outside::glob_error(
        outside::glob_compile(patterns[k])->Err_0,
    )
}

/// Compiles the patterns of one option, up to the first that does not compile.
pub fn compile_each(patterns: &Vec<String>, option: &'static str) -> (r: Result<
    Vec<glob::Pattern>,
    CliError,
>)
    ensures
        r is Ok == (forall|i: int|
            0 <= i < patterns@.len() ==> compiles(#[trigger] text::texts(patterns@)[i])),
        match r {
            Ok(list) => list@ == compiled(text::texts(patterns@)),
            Err(e) => exists|k: int|
                first_bad(text::texts(patterns@), k) && is_pattern_error(
                    e,
                    option@,
                    text::texts(patterns@),
                    k,
                ),
        },
{
    let ghost all = text::texts(patterns@);
    let mut out: Vec<glob::Pattern> = Vec::new();
    let mut i: usize = 0;
    while i < patterns.len()
        invariant
            i <= patterns.len(),
            all == text::texts(patterns@),
            all.len() == patterns.len(),
            out@ == compiled(all.take(i as int)),
            forall|k: int| 0 <= k < i ==> compiles(#[trigger] all[k]),
        decreases patterns.len() - i,
    {
        assert(all[i as int] == patterns@[i as int]@);
        match outside::compile_glob(patterns[i].as_str()) {
            Ok(p) => {
                out.push(p);
                assert(out@ =~= compiled(all.take(i + 1)));
            },
            Err(bad) => {
                let detail = outside::glob_error_text(&bad);
                let e = CliError::InvalidPattern { option, pattern: patterns[i].clone(), detail };
                assert(first_bad(all, i as int) && is_pattern_error(e, option@, all, i as int));
                return Err(e);
            },
        }
        i = i + 1;
    }
    assert(all.take(all.len() as int) =~= all);
    Ok(out)
}

impl PatternSet {
    /// Compiles the patterns of both options. `--nc-include` is compiled first:
    /// where both hold a bad pattern, its first one is the one reported.
    pub fn compile(flags: &NocruftFlags) -> (r: Result<PatternSet, CliError>)
        ensures
            ({
                let keep = text::texts(flags.force_include@);
                let drop = text::texts(flags.exclude@);
                let keep_ok = forall|i: int| 0 <= i < keep.len() ==> compiles(#[trigger] keep[i]);
                let drop_ok = forall|i: int| 0 <= i < drop.len() ==> compiles(#[trigger] drop[i]);
                &&& r is Ok == (keep_ok && drop_ok)
                &&& match r {
                    Ok(set) => set.includes@ == compiled(keep) && set.excludes@ == compiled(drop),
                    Err(e) => if keep_ok {
                        exists|k: int|
                            first_bad(drop, k) && is_pattern_error(e, "--nc-exclude"@, drop, k)
                    } else {
                        exists|k: int|
                            first_bad(keep, k) && is_pattern_error(e, "--nc-include"@, keep, k)
                    },
                }
            }),
    {
        let includes = match compile_each(&flags.force_include, "--nc-include") {
            Ok(v) => v,
            Err(e) => {
                return Err(e);
            },
        };
        let excludes = match compile_each(&flags.exclude, "--nc-exclude") {
            Ok(v) => v,
            Err(e) => {
                return Err(e);
            },
        };
        Ok(PatternSet { includes, excludes })
    }
}

impl Default for PatternSet {
    /// No patterns at all.
    fn default() -> (r: PatternSet)
        ensures
            r.includes@.len() == 0,
            r.excludes@.len() == 0,
    {
        PatternSet { includes: Vec::new(), excludes: Vec::new() }
    }
}

/// The program to run: the one given, or `nix-shell`.
pub open spec fn program(flags: NocruftFlags) -> Seq<char> {
    match flags.exec_prog {
        Some(p) => p@,
        None => "nix-shell"@,
    }
}

impl RoutedArgs {
    /// Completes the command line with the options that were read from
    /// `nc_args`.
    pub fn finish(self, flags: NocruftFlags) -> (r: Result<Parsed, CliError>)
        ensures
            ({
                let keep = text::texts(flags.force_include@);
                let drop = text::texts(flags.exclude@);
                let keep_ok = forall|i: int| 0 <= i < keep.len() ==> compiles(#[trigger] keep[i]);
                let drop_ok = forall|i: int| 0 <= i < drop.len() ==> compiles(#[trigger] drop[i]);
                &&& r is Ok == (keep_ok && drop_ok)
                &&& match r {
                    Ok(p) => {
                        &&& p.flags == flags
                        &&& p.child_args == self.child_args
                        &&& p.child_prog@ == program(flags)
                        &&& p.patterns.includes@ == compiled(keep)
                        &&& p.patterns.excludes@ == compiled(drop)
                    },
                    Err(e) => if keep_ok {
                        exists|k: int|
                            first_bad(drop, k) && is_pattern_error(e, "--nc-exclude"@, drop, k)
                    } else {
                        exists|k: int|
                            first_bad(keep, k) && is_pattern_error(e, "--nc-include"@, keep, k)
                    },
                }
            }),
    {
        let patterns = match PatternSet::compile(&flags) {
            Ok(p) => p,
            Err(e) => {
                return Err(e);
            },
        };
        let child_prog = match &flags.exec_prog {
            Some(p) => p.clone(),
            None => "nix-shell".to_string(),
        };
        Ok(Parsed { flags, child_args: self.child_args, child_prog, patterns })
    }
}

/// How much is logged, unless the environment says otherwise.
pub fn default_log_filter(verbose: bool) -> (r: &'static str)
    ensures
        r@ == (if verbose {
            "debug"@
        } else {
            "warn"@
        }),
{
    if verbose {
        "debug"
    } else {
        "warn"
    }
}

} // verus!
