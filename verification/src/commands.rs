//! The `svn` subcommands: which `svn` command line each one runs and which
//! filter its output goes through.
//!
//! Running the command is left to the caller: each entry point answers with
//! an [`SvnAction`], a plain description of the run.

use vstd::prelude::*;
use crate::add::{filter_add, filter_add_spec};
use crate::blame::{filter_blame, filter_blame_spec};
use crate::commit::{filter_commit, filter_commit_spec};
use crate::diff::{filter_diff, filter_diff_spec};
use crate::info::{filter_info, filter_info_spec};
use crate::log::{filter_log, filter_log_spec};
use crate::status::{filter_status, filter_status_spec};
use crate::text::{chars_of, equals_str};
use crate::update::{filter_update, filter_update_spec};

verus! {

/// The output filter of a subcommand.
#[derive(Clone, Copy, Debug, PartialEq, Eq, Structural)]
pub enum SvnFilter {
    Status,
    Log,
    Diff,
    Info,
    Blame,
    Add,
    Commit,
    Update,
}

/// How to run one `svn` invocation.
#[derive(Debug)]
pub enum SvnAction {
    /// Run `svn` with `args`, capture its standard output and print it
    /// through `filter`; `label` and `args_display` describe the run, and
    /// `tee_label` names where the raw output is kept for recovery.
    Filtered {
        args: Vec<String>,
        label: String,
        args_display: String,
        filter: SvnFilter,
        tee_label: String,
    },
    /// Run `svn` with `args` and let its output through untouched.
    Passthrough { args: Vec<String>, verbose: u8 },
}

/// Refusals of the entry points.
#[derive(Clone, Copy, Debug, PartialEq, Eq, Structural)]
pub enum SvnError {
    /// `svn` was called with no subcommand at all.
    NoSubcommand,
}

impl SvnError {
    /// The message shown for the refusal.
    pub fn message(&self) -> (s: String)
        ensures
            s@ == "svn: no subcommand specified"@,
    {
        String::from_str("svn: no subcommand specified")
    }
}

/// The arguments joined by single spaces (`[String]::join(" ")`).
pub open spec fn join_spaced(args: Seq<Seq<char>>) -> Seq<char>
    decreases args.len(),
{
    if args.len() == 0 {
        Seq::empty()
    } else if args.len() == 1 {
        args[0]
    } else {
        join_spaced(args.drop_last()) + seq![' '] + args.last()
    }
}

/// A filtered run of `svn {lead} {args}` under the given names.
pub open spec fn is_filtered_run(
    a: SvnAction,
    lead: Seq<Seq<char>>,
    args: Seq<Seq<char>>,
    label: Seq<char>,
    filter: SvnFilter,
    tee_label: Seq<char>,
) -> bool {
    match a {
        SvnAction::Filtered { args: run_args, label: l, args_display, filter: f, tee_label: t } => {
            &&& run_args.deep_view() == lead + args
            &&& l@ == label
            &&& args_display@ == join_spaced(args)
            &&& f == filter
            &&& t@ == tee_label
        },
        SvnAction::Passthrough { .. } => false,
    }
}

/// A filtered run of `svn {sub} --xml {args}`, where any `--xml` of the
/// user's is left out (it is already there).
pub open spec fn is_filtered_xml_run(
    a: SvnAction,
    sub: Seq<char>,
    args: Seq<Seq<char>>,
    label: Seq<char>,
    filter: SvnFilter,
    tee_label: Seq<char>,
) -> bool {
    match a {
        SvnAction::Filtered { args: run_args, label: l, args_display, filter: f, tee_label: t } => {
            &&& run_args.deep_view() == seq![sub, "--xml"@] + without(args, "--xml"@)
            &&& l@ == label
            &&& args_display@ == join_spaced(args)
            &&& f == filter
            &&& t@ == tee_label
        },
        SvnAction::Passthrough { .. } => false,
    }
}

/// A passthrough run of `svn {args}`.
pub open spec fn is_passthrough_run(a: SvnAction, args: Seq<Seq<char>>, verbose: u8) -> bool {
    match a {
        SvnAction::Passthrough { args: run_args, verbose: v } => run_args.deep_view() == args
            && v == verbose,
        SvnAction::Filtered { .. } => false,
    }
}

/// The arguments other than `x`, in order.
pub open spec fn without(args: Seq<Seq<char>>, x: Seq<char>) -> Seq<Seq<char>>
    decreases args.len(),
{
    if args.len() == 0 {
        Seq::empty()
    } else if args.last() == x {
        without(args.drop_last(), x)
    } else {
        without(args.drop_last(), x).push(args.last())
    }
}

/// `args.join(" ")`.
pub fn join_args(args: &[String]) -> (s: String)
    ensures
        s@ == join_spaced(args.deep_view()),
{
    let mut s = String::new();
    let n = args.len();
    let mut i: usize = 0;
    while i < n
        invariant
            n == args@.len(),
            i <= n,
            s@ == join_spaced(args.deep_view().take(i as int)),
        decreases n - i,
    {
        assert(args.deep_view()[i as int] == args@[i as int]@);
        assert(args.deep_view().take(i + 1).drop_last() =~= args.deep_view().take(i as int));
        if i > 0 {
            s.append(" ");
            proof {
                reveal_strlit(" ");
            }
        }
        s.append(args[i].as_str());
        i = i + 1;
        assert(s@ =~= join_spaced(args.deep_view().take(i as int)));
    }
    assert(args.deep_view().take(n as int) =~= args.deep_view());
    s
}

/// The leading arguments followed by the user's arguments.
fn command_args(lead: Vec<String>, args: &[String]) -> (v: Vec<String>)
    ensures
        v.deep_view() == lead.deep_view() + args.deep_view(),
{
    let mut v = lead;
    let ghost v0 = v.deep_view();
    let n = args.len();
    let mut i: usize = 0;
    while i < n
        invariant
            n == args@.len(),
            i <= n,
            v.deep_view() =~= v0 + args.deep_view().take(i as int),
        decreases n - i,
    {
        let a = args[i].clone();
        let ghost w = v.deep_view();
        v.push(a);
        assert(v.deep_view() =~= w.push(args@[i as int]@));
        i = i + 1;
    }
    assert(args.deep_view().take(n as int) =~= args.deep_view());
    v
}

/// The leading arguments followed by the user's arguments other than `x`.
fn command_args_without(lead: Vec<String>, args: &[String], x: &str) -> (v: Vec<String>)
    ensures
        v.deep_view() == lead.deep_view() + without(args.deep_view(), x@),
{
    let mut v = lead;
    let ghost v0 = v.deep_view();
    let n = args.len();
    let mut i: usize = 0;
    while i < n
        invariant
            n == args@.len(),
            i <= n,
            v.deep_view() =~= v0 + without(args.deep_view().take(i as int), x@),
        decreases n - i,
    {
        assert(args.deep_view()[i as int] == args@[i as int]@);
        assert(args.deep_view().take(i + 1).drop_last() =~= args.deep_view().take(i as int));
        let c = chars_of(args[i].as_str());
        if !equals_str(c.as_slice(), x) {
            let a = args[i].clone();
            let ghost w = v.deep_view();
            v.push(a);
            assert(v.deep_view() =~= w.push(args@[i as int]@));
        }
        i = i + 1;
    }
    assert(args.deep_view().take(n as int) =~= args.deep_view());
    v
}

fn one(a: &str) -> (v: Vec<String>)
    ensures
        v.deep_view() == seq![a@],
{
    let mut v: Vec<String> = Vec::new();
    v.push(String::from_str(a));
    assert(v.deep_view() =~= seq![a@]);
    v
}

fn two(a: &str, b: &str) -> (v: Vec<String>)
    ensures
        v.deep_view() == seq![a@, b@],
{
    let mut v: Vec<String> = Vec::new();
    v.push(String::from_str(a));
    v.push(String::from_str(b));
    assert(v.deep_view() =~= seq![a@, b@]);
    v
}

fn filtered_xml(
    sub: &str,
    args: &[String],
    label: &str,
    filter: SvnFilter,
    tee_label: &str,
) -> (a: SvnAction)
    ensures
        is_filtered_xml_run(a, sub@, args.deep_view(), label@, filter, tee_label@),
{
    SvnAction::Filtered {
        args: command_args_without(two(sub, "--xml"), args, "--xml"),
        label: String::from_str(label),
        args_display: join_args(args),
        filter,
        tee_label: String::from_str(tee_label),
    }
}

fn filtered(
    lead: Vec<String>,
    args: &[String],
    label: &str,
    filter: SvnFilter,
    tee_label: &str,
) -> (a: SvnAction)
    ensures
        is_filtered_run(a, lead.deep_view(), args.deep_view(), label@, filter, tee_label@),
{
    SvnAction::Filtered {
        args: command_args(lead, args),
        label: String::from_str(label),
        args_display: join_args(args),
        filter,
        tee_label: String::from_str(tee_label),
    }
}

/// `svn status {args}`, filtered by `filter_status`.
pub fn run_status(args: &[String], _verbose: u8) -> (a: SvnAction)
    ensures
        is_filtered_run(
            a,
            seq!["status"@],
            args.deep_view(),
            "svn status"@,
            SvnFilter::Status,
            "svn_status"@,
        ),
{
    filtered(one("status"), args, "svn status", SvnFilter::Status, "svn_status")
}

/// `svn log --xml {args}`, filtered by `filter_log`; a `--xml` among the
/// user's arguments is dropped, since it is already there.
pub fn run_log(args: &[String], _verbose: u8) -> (a: SvnAction)
    ensures
        is_filtered_xml_run(a, "log"@, args.deep_view(), "svn log"@, SvnFilter::Log, "svn_log"@),
{
    filtered_xml("log", args, "svn log", SvnFilter::Log, "svn_log")
}

/// `svn diff --no-diff-deleted {args}`, filtered by `filter_diff`.
pub fn run_diff(args: &[String], _verbose: u8) -> (a: SvnAction)
    ensures
        is_filtered_run(
            a,
            seq!["diff"@, "--no-diff-deleted"@],
            args.deep_view(),
            "svn diff"@,
            SvnFilter::Diff,
            "svn_diff"@,
        ),
{
    filtered(two("diff", "--no-diff-deleted"), args, "svn diff", SvnFilter::Diff, "svn_diff")
}

/// `svn info --xml {args}`, filtered by `filter_info`; a `--xml` among the
/// user's arguments is dropped, since it is already there.
pub fn run_info(args: &[String], _verbose: u8) -> (a: SvnAction)
    ensures
        is_filtered_xml_run(
            a,
            "info"@,
            args.deep_view(),
            "svn info"@,
            SvnFilter::Info,
            "svn_info"@,
        ),
{
    filtered_xml("info", args, "svn info", SvnFilter::Info, "svn_info")
}

/// `svn blame {args}`, filtered by `filter_blame`.
pub fn run_blame(args: &[String], _verbose: u8) -> (a: SvnAction)
    ensures
        is_filtered_run(
            a,
            seq!["blame"@],
            args.deep_view(),
            "svn blame"@,
            SvnFilter::Blame,
            "svn_blame"@,
        ),
{
    filtered(one("blame"), args, "svn blame", SvnFilter::Blame, "svn_blame")
}

/// `svn add {args}`, filtered by `filter_add`.
pub fn run_add(args: &[String], _verbose: u8) -> (a: SvnAction)
    ensures
        is_filtered_run(a, seq!["add"@], args.deep_view(), "svn add"@, SvnFilter::Add, "svn_add"@),
{
    filtered(one("add"), args, "svn add", SvnFilter::Add, "svn_add")
}

/// `svn commit {args}`, filtered by `filter_commit`.
pub fn run_commit(args: &[String], _verbose: u8) -> (a: SvnAction)
    ensures
        is_filtered_run(
            a,
            seq!["commit"@],
            args.deep_view(),
            "svn commit"@,
            SvnFilter::Commit,
            "svn_commit"@,
        ),
{
    filtered(one("commit"), args, "svn commit", SvnFilter::Commit, "svn_commit")
}

/// `svn update {args}`, filtered by `filter_update`.
pub fn run_update(args: &[String], _verbose: u8) -> (a: SvnAction)
    ensures
        is_filtered_run(
            a,
            seq!["update"@],
            args.deep_view(),
            "svn update"@,
            SvnFilter::Update,
            "svn_update"@,
        ),
{
    filtered(one("update"), args, "svn update", SvnFilter::Update, "svn_update")
}

/// Any other subcommand: `svn {args}` passed through untouched; refused
/// when there is no subcommand at all.
pub fn run_other(args: &[String], verbose: u8) -> (r: Result<SvnAction, SvnError>)
    ensures
        args@.len() == 0 <==> r is Err,
        r matches Err(e) ==> e == SvnError::NoSubcommand,
        r matches Ok(a) ==> is_passthrough_run(a, args.deep_view(), verbose),
{
    if args.len() == 0 {
        return Err(SvnError::NoSubcommand);
    }
    Ok(SvnAction::Passthrough { args: command_args(Vec::new(), args), verbose })
}

/// What `filter` makes of `input`.
pub open spec fn apply_filter_spec(filter: SvnFilter, input: Seq<char>) -> Seq<char> {
    match filter {
        SvnFilter::Status => filter_status_spec(input),
        SvnFilter::Log => filter_log_spec(input),
        SvnFilter::Diff => filter_diff_spec(input),
        SvnFilter::Info => filter_info_spec(input),
        SvnFilter::Blame => filter_blame_spec(input),
        SvnFilter::Add => filter_add_spec(input),
        SvnFilter::Commit => filter_commit_spec(input),
        SvnFilter::Update => filter_update_spec(input),
    }
}

/// Run `filter` on a subcommand's captured output.
pub fn apply_filter(filter: SvnFilter, input: &str) -> (out: String)
    ensures
        out@ == apply_filter_spec(filter, input@),
{
    match filter {
        SvnFilter::Status => filter_status(input),
        SvnFilter::Log => filter_log(input),
        SvnFilter::Diff => filter_diff(input),
        SvnFilter::Info => filter_info(input),
        SvnFilter::Blame => filter_blame(input),
        SvnFilter::Add => filter_add(input),
        SvnFilter::Commit => filter_commit(input),
        SvnFilter::Update => filter_update(input),
    }
}

} // verus!
