//! How a command line is dealt out between nocruft and its child, and what is read
//! from it.

use crate::cli;
use crate::cli::{
    default_log_filter, parse_argv, CliError, NocruftFlags, Parsed, PatternSet, Route, RoutedArgs,
};
use crate::outside;
use crate::text;
use vstd::prelude::*;
use vstd::string::*;

verus! {

/// The three options that are followed by a value.
pub open spec fn wants_a_value(tok: Seq<char>) -> bool {
    tok == "--nc-exec"@ || tok == "--nc-exclude"@ || tok == "--nc-include"@
}

/// The four options that every program has.
pub open spec fn asks_for_help_or_version(tok: Seq<char>) -> bool {
    tok == "--help"@ || tok == "-h"@ || tok == "--version"@ || tok == "-V"@
}

proof fn lemma_literals()
    ensures
        "--nc-exec"@ =~= seq!['-', '-', 'n', 'c', '-', 'e', 'x', 'e', 'c'],
        "--nc-exclude"@ =~= seq!['-', '-', 'n', 'c', '-', 'e', 'x', 'c', 'l', 'u', 'd', 'e'],
        "--nc-include"@ =~= seq!['-', '-', 'n', 'c', '-', 'i', 'n', 'c', 'l', 'u', 'd', 'e'],
        "--nc-"@ =~= seq!['-', '-', 'n', 'c', '-'],
        "--help"@ =~= seq!['-', '-', 'h', 'e', 'l', 'p'],
        "-h"@ =~= seq!['-', 'h'],
        "--version"@ =~= seq!['-', '-', 'v', 'e', 'r', 's', 'i', 'o', 'n'],
        "-V"@ =~= seq!['-', 'V'],
        "--"@ =~= seq!['-', '-'],
{
    reveal_strlit("--nc-exec");
    reveal_strlit("--nc-exclude");
    reveal_strlit("--nc-include");
    reveal_strlit("--nc-");
    reveal_strlit("--help");
    reveal_strlit("-h");
    reveal_strlit("--version");
    reveal_strlit("-V");
    reveal_strlit("--");
}

proof fn lemma_own_is_no_separator(tok: Seq<char>)
    requires
        "--nc-"@.is_prefix_of(tok) || asks_for_help_or_version(tok),
    ensures
        tok != "--"@,
{
    lemma_literals();
    if "--nc-"@.is_prefix_of(tok) {
        assert(tok.len() >= 5);
    }
}

/// An option that takes a value takes the argument behind it, whatever that is, and
/// is refused where there is none; the rest is dealt out as it would be alone.
pub proof fn law_value_follows_its_option(
    option: Seq<char>,
    value: Seq<char>,
    rest: Seq<Seq<char>>,
)
    requires
        option == "--nc-exec"@ || option == "--nc-exclude"@ || option == "--nc-include"@,
    ensures
        cli::routed(seq![option]) == Err::<Route, Seq<char>>(option),
        match cli::routed(rest) {
            Ok(tail) => cli::routed(seq![option, value] + rest) == Ok::<Route, Seq<char>>(
                Route { nc: seq![option, value] + tail.nc, child: tail.child },
            ),
            Err(flag) => cli::routed(seq![option, value] + rest) == Err::<Route, Seq<char>>(flag),
        },
{
    let whole = seq![option, value] + rest;
    lemma_literals();
    assert(whole[0] == option);
    assert(whole.skip(2) =~= rest);
    assert(whole.take(2) =~= seq![option, value]);
}

/// Any other argument of nocruft's own stands alone: one that starts with `--nc-`, also
/// with a value behind an equals sign, or one that asks for help or the version.
pub proof fn law_own_argument_stands_alone(tok: Seq<char>, rest: Seq<Seq<char>>)
    requires
        "--nc-"@.is_prefix_of(tok) || tok == "--help"@ || tok == "-h"@ || tok == "--version"@ || tok
            == "-V"@,
        tok != "--nc-exec"@ && tok != "--nc-exclude"@ && tok != "--nc-include"@,
    ensures
        match cli::routed(rest) {
            Ok(tail) => cli::routed(seq![tok] + rest) == Ok::<Route, Seq<char>>(
                Route { nc: seq![tok] + tail.nc, child: tail.child },
            ),
            Err(flag) => cli::routed(seq![tok] + rest) == Err::<Route, Seq<char>>(flag),
        },
{
    let whole = seq![tok] + rest;
    lemma_own_is_no_separator(tok);
    assert(whole[0] == tok);
    assert(whole.skip(1) =~= rest);
    assert(whole.take(1) =~= seq![tok]);
}

/// Any argument that is neither nocruft's own nor the separator is the child's.
pub proof fn law_other_argument_is_the_childs(tok: Seq<char>, rest: Seq<Seq<char>>)
    requires
        !"--nc-"@.is_prefix_of(tok),
        tok != "--help"@ && tok != "-h"@ && tok != "--version"@ && tok != "-V"@ && tok != "--"@,
    ensures
        match cli::routed(rest) {
            Ok(tail) => cli::routed(seq![tok] + rest) == Ok::<Route, Seq<char>>(
                Route { nc: tail.nc, child: seq![tok] + tail.child },
            ),
            Err(flag) => cli::routed(seq![tok] + rest) == Err::<Route, Seq<char>>(flag),
        },
{
    let whole = seq![tok] + rest;
    lemma_literals();
    assert(whole[0] == tok);
    assert(whole.skip(1) =~= rest);
    assert(whole.take(1) =~= seq![tok]);
    if wants_a_value(tok) {
        assert("--nc-"@ =~= tok.subrange(0, 5));
    }
}

/// Behind the separator nothing is looked at; without arguments there is nothing to
/// deal out.
pub proof fn law_separator_ends_the_options(rest: Seq<Seq<char>>)
    ensures
        cli::routed(seq!["--"@] + rest) == Ok::<Route, Seq<char>>(
            Route { nc: Seq::empty(), child: rest },
        ),
        cli::routed(Seq::empty()) == Ok::<Route, Seq<char>>(
            Route { nc: Seq::empty(), child: Seq::empty() },
        ),
{
    let whole = seq!["--"@] + rest;
    assert(whole[0] == "--"@);
    assert(whole.skip(1) =~= rest);
}

/// Reading a command line deals its arguments out, and fails only for an option that
/// lacks its value.
pub proof fn law_reading_deals_out(argv: Vec<String>, r: Result<RoutedArgs, CliError>)
    requires
        call_ensures(parse_argv, (argv,), r),
    ensures
        r matches Ok(args) ==> cli::routed(text::texts(argv@)) == Ok::<Route, Seq<char>>(
            Route { nc: text::texts(args.nc_args@), child: text::texts(args.child_args@) },
        ),
        r matches Err(e) ==> e is MissingValue && cli::routed(text::texts(argv@)) == Err::<
            Route,
            Seq<char>,
        >(e->flag@),
        r is Ok <==> cli::routed(text::texts(argv@)) is Ok,
{
}

proof fn lemma_missing_value(argv: Seq<Seq<char>>)
    requires
        cli::routed(argv) is Err,
    ensures
        argv.len() > 0,
        cli::routed(argv)->Err_0 == argv.last(),
        wants_a_value(argv.last()),
    decreases argv.len(),
{
    if argv.len() > 0 && argv[0] != "--"@ {
        if cli::takes_value(argv[0]) {
            if argv.len() > 1 {
                lemma_missing_value(argv.skip(2));
                assert(argv.skip(2).last() == argv.last());
            }
        } else {
            lemma_missing_value(argv.skip(1));
            assert(argv.skip(1).last() == argv.last());
        }
    }
}

/// A command line is refused only where its very last argument is one of the three
/// options that take a value, and that option is the one named.
pub proof fn law_refusal_names_the_last_option(argv: Vec<String>, r: Result<RoutedArgs, CliError>)
    requires
        call_ensures(parse_argv, (argv,), r),
        r is Err,
    ensures
        argv@.len() > 0,
        wants_a_value(argv@.last()@),
        r->Err_0 is MissingValue && (r->Err_0)->flag@ == argv@.last()@,
{
    lemma_missing_value(text::texts(argv@));
}

/// The program that runs is the one given, or else `nix-shell`; its arguments are
/// those dealt out to it, and the options are handed on as they were read.
pub proof fn law_child_is_run_as_asked(
    routed: RoutedArgs,
    flags: NocruftFlags,
    r: Result<Parsed, CliError>,
)
    requires
        call_ensures(RoutedArgs::finish, (routed, flags), r),
        r is Ok,
    ensures
        r->Ok_0.child_args == routed.child_args,
        r->Ok_0.flags == flags,
        flags.exec_prog matches Some(prog) ==> r->Ok_0.child_prog@ == prog@,
        flags.exec_prog is None ==> r->Ok_0.child_prog@ == "nix-shell"@,
{
}

/// The compiled patterns are those of the texts, one for one and in order, each list
/// from its own option.
pub open spec fn compiled_from(list: Seq<glob::Pattern>, patterns: Seq<String>) -> bool {
    &&& list.len() == patterns.len()
    &&& forall|i: int|
        0 <= i < list.len() ==> outside::glob_compile((#[trigger] patterns[i])@) == Ok::<
            glob::Pattern,
            glob::PatternError,
        >(list[i])
}

/// Some pattern of the list does not compile.
pub open spec fn holds_a_bad_one(patterns: Seq<String>) -> bool {
    exists|i: int|
        0 <= i < patterns.len() && outside::glob_compile((#[trigger] patterns[i])@) is Err
}

/// Patterns are compiled one for one, and refused where one of them is bad.
pub proof fn law_patterns_are_compiled_one_for_one(
    flags: &NocruftFlags,
    r: Result<PatternSet, CliError>,
)
    requires
        call_ensures(PatternSet::compile, (flags,), r),
    ensures
        r is Err <==> holds_a_bad_one(flags.force_include@) || holds_a_bad_one(flags.exclude@),
        r matches Ok(set) ==> compiled_from(set.includes@, flags.force_include@) && compiled_from(
            set.excludes@,
            flags.exclude@,
        ),
{
    let keep = text::texts(flags.force_include@);
    let drop = text::texts(flags.exclude@);
    assert forall|i: int| 0 <= i < keep.len() implies #[trigger] keep[i]
        == flags.force_include@[i]@ by {}
    assert forall|i: int| 0 <= i < drop.len() implies #[trigger] drop[i] == flags.exclude@[i]@ by {}
    if r is Ok {
        assert forall|i: int|
            0 <= i < flags.force_include@.len() implies outside::glob_compile(
            (#[trigger] flags.force_include@[i])@,
        ) is Ok by {
            assert(cli::compiles(keep[i]));
        }
        assert forall|i: int| 0 <= i < flags.exclude@.len() implies outside::glob_compile(
            (#[trigger] flags.exclude@[i])@,
        ) is Ok by {
            assert(cli::compiles(drop[i]));
        }
    } else if forall|i: int| 0 <= i < keep.len() ==> cli::compiles(#[trigger] keep[i]) {
        let k = choose|k: int| cli::first_bad(drop, k);
        assert(outside::glob_compile(flags.exclude@[k]@) is Err);
    } else {
        let k = choose|k: int| 0 <= k < keep.len() && !cli::compiles(#[trigger] keep[k]);
        assert(outside::glob_compile(flags.force_include@[k]@) is Err);
    }
}

/// The pattern is the first of the list that does not compile, and `detail` is what is
/// wrong with it.
pub open spec fn is_first_bad_one(
    patterns: Seq<String>,
    pattern: Seq<char>,
    detail: Seq<char>,
    k: int,
) -> bool {
    &&& 0 <= k < patterns.len()
    &&& patterns[k]@ == pattern
    &&& outside::glob_compile(pattern) matches Err(e) && detail == outside::glob_error(e)
    &&& forall|i: int| 0 <= i < k ==> outside::glob_compile((#[trigger] patterns[i])@) is Ok
}

/// The error about a bad pattern names the option that holds it, the first such pattern
/// and what is wrong with it; a bad pattern to keep is named before one to drop.
pub proof fn law_bad_pattern_is_named(flags: &NocruftFlags, r: Result<PatternSet, CliError>)
    requires
        call_ensures(PatternSet::compile, (flags,), r),
        r is Err,
    ensures
        r->Err_0 matches CliError::InvalidPattern { option, pattern, detail } && (if holds_a_bad_one(
            flags.force_include@,
        ) {
            option@ == "--nc-include"@ && exists|k: int|
                is_first_bad_one(flags.force_include@, pattern@, detail@, k)
        } else {
            option@ == "--nc-exclude"@ && exists|k: int|
                is_first_bad_one(flags.exclude@, pattern@, detail@, k)
        }),
{
    let keep = text::texts(flags.force_include@);
    let drop = text::texts(flags.exclude@);
    let e = r->Err_0;
    if forall|i: int| 0 <= i < keep.len() ==> cli::compiles(#[trigger] keep[i]) {
        if holds_a_bad_one(flags.force_include@) {
            let i = choose|i: int|
                0 <= i < flags.force_include@.len() && outside::glob_compile(
                    (#[trigger] flags.force_include@[i])@,
                ) is Err;
            assert(cli::compiles(keep[i]));
        }
        let k = choose|k: int|
            cli::first_bad(drop, k) && cli::is_pattern_error(e, "--nc-exclude"@, drop, k);
        assert(drop[k] == flags.exclude@[k]@);
        assert forall|i: int| 0 <= i < k implies outside::glob_compile(
            (#[trigger] flags.exclude@[i])@,
        ) is Ok by {
            assert(cli::compiles(drop[i]));
        }
        assert(is_first_bad_one(flags.exclude@, e->pattern@, e->detail@, k));
    } else {
        let k = choose|k: int|
            cli::first_bad(keep, k) && cli::is_pattern_error(e, "--nc-include"@, keep, k);
        assert(keep[k] == flags.force_include@[k]@);
        assert(outside::glob_compile(flags.force_include@[k]@) is Err);
        assert forall|i: int| 0 <= i < k implies outside::glob_compile(
            (#[trigger] flags.force_include@[i])@,
        ) is Ok by {
            assert(cli::compiles(keep[i]));
        }
        assert(is_first_bad_one(flags.force_include@, e->pattern@, e->detail@, k));
    }
}

/// Completing a command line fails exactly where compiling its patterns does, and with
/// the same error; where it succeeds its patterns are those.
pub proof fn law_completing_compiles_the_patterns(
    routed: RoutedArgs,
    flags: NocruftFlags,
    r: Result<Parsed, CliError>,
)
    requires
        call_ensures(RoutedArgs::finish, (routed, flags), r),
    ensures
        r is Err <==> holds_a_bad_one(flags.force_include@) || holds_a_bad_one(flags.exclude@),
        r matches Ok(p) ==> compiled_from(p.patterns.includes@, flags.force_include@)
            && compiled_from(p.patterns.excludes@, flags.exclude@),
        r matches Err(e) ==> e is InvalidPattern,
{
    let keep = text::texts(flags.force_include@);
    let drop = text::texts(flags.exclude@);
    assert forall|i: int| 0 <= i < keep.len() implies #[trigger] keep[i]
        == flags.force_include@[i]@ by {}
    assert forall|i: int| 0 <= i < drop.len() implies #[trigger] drop[i] == flags.exclude@[i]@ by {}
    if r is Ok {
        assert forall|i: int|
            0 <= i < flags.force_include@.len() implies outside::glob_compile(
            (#[trigger] flags.force_include@[i])@,
        ) is Ok by {
            assert(cli::compiles(keep[i]));
        }
        assert forall|i: int| 0 <= i < flags.exclude@.len() implies outside::glob_compile(
            (#[trigger] flags.exclude@[i])@,
        ) is Ok by {
            assert(cli::compiles(drop[i]));
        }
    } else if forall|i: int| 0 <= i < keep.len() ==> cli::compiles(#[trigger] keep[i]) {
        let k = choose|k: int| cli::first_bad(drop, k);
        assert(outside::glob_compile(flags.exclude@[k]@) is Err);
    } else {
        let k = choose|k: int| 0 <= k < keep.len() && !cli::compiles(#[trigger] keep[k]);
        assert(outside::glob_compile(flags.force_include@[k]@) is Err);
    }
}

/// What is said of an error names the option, and of a bad pattern also the pattern in
/// quotes and what is wrong with it.
pub proof fn law_errors_say_what_is_wrong(e: &CliError, r: String)
    requires
        call_ensures(CliError::message, (e,), r),
    ensures
        *e matches CliError::MissingValue { flag } ==> r@ == "flag "@ + flag@ + " requires a value"@,
        *e matches CliError::InvalidPattern { option, pattern, detail } ==> r@ == "invalid "@
            + option@ + " pattern "@ + outside::debug_quoted(pattern@) + ": "@ + detail@,
{
}

/// Debugging output is on exactly when it is asked for.
pub proof fn law_verbose_turns_debugging_on(verbose: bool, r: &'static str)
    requires
        call_ensures(default_log_filter, (verbose,), r),
    ensures
        r@ == "debug"@ <==> verbose,
        r@ == "warn"@ <==> !verbose,
{
    reveal_strlit("debug");
    reveal_strlit("warn");
    assert("debug"@.len() != "warn"@.len());
}

} // verus!
