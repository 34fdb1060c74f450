//! Splitting a command line: each argument ends a group, is an option of
//! the program, is an option of the library, or is not known.

use crate::cmdline::{
    add_opt, codec_looked_up, finish_group, format_looked_up, looks_up_all, opt_default,
    with_default, with_group_finished, with_option, Context, KeyValue, Lookup, OptionClass,
    OptionParseContext, MINUS,
};
use crate::options::{
    first_ended_by, first_named, group_ended_by, lemma_first_ended_by_bounds,
    lemma_first_named_bounds, option_key, option_named, OptionDef, OptionFlag, OptionGroupDef,
};
use crate::text::bytes_eq;
use vstd::prelude::*;
use vstd::slice::{slice_subrange, slice_to_vec};
use vstd::utf8::encode_utf8;

verus! {

/// Model of an [`ArgOperation`].
pub enum Operation {
    AddOpt { opt: Seq<u8>, arg: Seq<u8> },
    FinishGroup { group: nat, arg: Seq<u8> },
    OptDefault { opt: Seq<u8>, arg: Seq<u8> },
}

/// What was made of one or two arguments of the command line.
#[derive(Debug)]
pub enum ArgOperation {
    /// An option of the program was added, with its argument.
    AddOpt(Vec<u8>, Vec<u8>),
    /// A group of the kind at this position was ended, by this argument.
    FinishGroup(usize, Vec<u8>),
    /// An option of the library was given this argument.
    OptDefault(Vec<u8>, Vec<u8>),
}

impl View for ArgOperation {
    type V = Operation;

    open spec fn view(&self) -> Operation {
        match self {
            ArgOperation::AddOpt(opt, arg) => Operation::AddOpt { opt: opt@, arg: arg@ },
            ArgOperation::FinishGroup(group, arg) => Operation::FinishGroup {
                group: *group as nat,
                arg: arg@,
            },
            ArgOperation::OptDefault(opt, arg) => Operation::OptDefault { opt: opt@, arg: arg@ },
        }
    }
}

impl DeepView for ArgOperation {
    type V = Operation;

    open spec fn deep_view(&self) -> Operation {
        self@
    }
}

/// Model of a [`SplitError`].
pub enum SplitFailure {
    MissingArgument { opt: Seq<u8> },
    UnrecognizedOption { opt: Seq<u8> },
}

/// Why a command line was not accepted.
#[derive(Debug)]
pub enum SplitError {
    /// The option is the last argument, and needs an argument of its own.
    MissingArgument { opt: Vec<u8> },
    /// Neither the program nor the library has such an option.
    UnrecognizedOption { opt: Vec<u8> },
}

impl View for SplitError {
    type V = SplitFailure;

    open spec fn view(&self) -> SplitFailure {
        match self {
            SplitError::MissingArgument { opt } => SplitFailure::MissingArgument { opt: opt@ },
            SplitError::UnrecognizedOption { opt } => SplitFailure::UnrecognizedOption {
                opt: opt@,
            },
        }
    }
}

/// How far a command line has been split.
pub struct Split<'global, U> {
    /// The groups of options.
    pub ctx: Context<'global, U>,
    /// The position of the next argument.
    pub optindex: int,
    /// The position behind `--`, once it has been seen.
    pub dashdash: Option<int>,
    /// The argument of the last option that names a filtergraph.
    pub filtergraph: Option<Seq<char>>,
    /// What has been made of the arguments, in their order.
    pub operations: Seq<Operation>,
}

/// What has become of splitting a command line.
pub enum Sorting<'global, U> {
    /// The arguments so far were accepted.
    Going(Split<'global, U>),
    /// An argument was not accepted; the arguments before it made this of
    /// the command line.
    Failed(SplitFailure, Split<'global, U>),
}

/// The bytes of `--`, behind which the next argument ends a group even if
/// it begins with `-`.
pub open spec fn dashes() -> Seq<u8> {
    seq![45u8, 45u8]
}

/// Whether the argument of the option `opt` is a filtergraph: it is for
/// `vf`, `af` and `filter_complex`.
pub open spec fn names_filtergraph(opt: Seq<u8>) -> bool {
    ||| opt == seq![118u8, 102u8]
    ||| opt == seq![97u8, 102u8]
    ||| opt == seq![
        102u8,
        105u8,
        108u8,
        116u8,
        101u8,
        114u8,
        95u8,
        99u8,
        111u8,
        109u8,
        112u8,
        108u8,
        101u8,
        120u8,
    ]
}

/// The split `st` once the option `po`, written as `opt`, has been added
/// with the argument `arg`, and `after` is the next argument to look at.
pub open spec fn accepted<'global, U>(
    st: Split<'global, U>,
    po: OptionDef<'global, U>,
    opt: Seq<u8>,
    arg: Seq<char>,
    after: int,
) -> Split<'global, U> {
    Split {
        ctx: with_option(st.ctx, KeyValue { opt: po, key: opt, val: encode_utf8(arg) }),
        optindex: after,
        filtergraph: if names_filtergraph(opt) {
            Some(arg)
        } else {
            st.filtergraph
        },
        operations: st.operations.push(Operation::AddOpt { opt, arg: encode_utf8(arg) }),
        ..st
    }
}

/// What becomes of the option `po` of the program, written as `opt`.  An
/// option that ends the program takes the next argument if there is one,
/// and an empty argument if not.  An option that has an argument takes the
/// next argument, which must be there.  Any other option gets `1`.
pub open spec fn sort_known<'global, U>(
    args: Seq<Seq<char>>,
    st: Split<'global, U>,
    po: OptionDef<'global, U>,
    opt: Seq<u8>,
) -> Sorting<'global, U> {
    let next = st.optindex + 1;
    if po.flags@ & OptionFlag::OPT_EXIT != 0 {
        if next < args.len() {
            Sorting::Going(accepted(st, po, opt, args[next], next + 1))
        } else {
            Sorting::Going(accepted(st, po, opt, Seq::empty(), next))
        }
    } else if po.flags@ & OptionFlag::HAS_ARG != 0 {
        if next < args.len() {
            Sorting::Going(accepted(st, po, opt, args[next], next + 1))
        } else {
            Sorting::Failed(SplitFailure::MissingArgument { opt }, st)
        }
    } else {
        Sorting::Going(accepted(st, po, opt, seq!['1'], next))
    }
}

/// Whether `opt` is written as the negation of a switch: it begins with
/// `no`.
pub open spec fn is_negated(opt: Seq<u8>) -> bool {
    opt.len() >= 2 && opt[0] == 110 && opt[1] == 111
}

/// What becomes of `opt` when the program has no such option.  Where an
/// argument follows and the library has the option, as `codec` and
/// `format` say, the option is given that argument.  Otherwise `opt` is
/// accepted if it is `no` and the name of a switch of the program, which
/// is then set to `0`.
pub open spec fn sort_unknown<'global, U>(
    args: Seq<Seq<char>>,
    options: Seq<OptionDef<'global, U>>,
    st: Split<'global, U>,
    opt: Seq<u8>,
    codec: Lookup,
    format: Lookup,
) -> Sorting<'global, U> {
    let next = st.optindex + 1;
    let switch = first_named(options, option_key(opt.subrange(2, opt.len() as int)), 0);
    if next < args.len() && (codec is Found || format is Found) {
        let arg = encode_utf8(args[next]);
        Sorting::Going(
            Split {
                ctx: Context {
                    cur_group: with_default(st.ctx.cur_group, opt, arg, codec, format),
                    ..st.ctx
                },
                optindex: next + 1,
                operations: st.operations.push(Operation::OptDefault { opt, arg }),
                ..st
            },
        )
    } else if is_negated(opt) && switch < options.len() && options[switch].flags@
        & OptionFlag::OPT_BOOL == OptionFlag::OPT_BOOL {
        Sorting::Going(
            Split {
                ctx: with_option(
                    st.ctx,
                    KeyValue { opt: options[switch], key: opt, val: encode_utf8(seq!['0']) },
                ),
                optindex: next,
                operations: st.operations.push(
                    Operation::AddOpt { opt: opt.subrange(2, opt.len() as int), arg: opt },
                ),
                ..st
            },
        )
    } else {
        Sorting::Failed(SplitFailure::UnrecognizedOption { opt }, st)
    }
}

/// Whether the argument at `st.optindex` is an option: it begins with `-`,
/// holds more than that, is not `--`, and does not stand right behind
/// `--`.
pub open spec fn is_option<'global, U>(args: Seq<Seq<char>>, st: Split<'global, U>) -> bool {
    let written = encode_utf8(args[st.optindex]);
    &&& written != dashes()
    &&& written.len() > 1
    &&& written[0] == MINUS
    &&& st.dashdash != Some(st.optindex)
}

/// The name of the option at `st.optindex`: the argument without its `-`.
pub open spec fn option_at<'global, U>(args: Seq<Seq<char>>, st: Split<'global, U>) -> Seq<u8> {
    let written = encode_utf8(args[st.optindex]);
    written.subrange(1, written.len() as int)
}

/// Whether the library is asked about the argument at `st.optindex`: it
/// is an option that ends no group and is no option of the program, and an
/// argument follows it.
pub open spec fn asks_library<'global, U>(
    args: Seq<Seq<char>>,
    options: Seq<OptionDef<'global, U>>,
    groups: Seq<OptionGroupDef<'global>>,
    st: Split<'global, U>,
) -> bool {
    let opt = option_at(args, st);
    &&& is_option(args, st)
    &&& first_ended_by(groups, opt, 0) >= groups.len()
    &&& first_named(options, option_key(opt), 0) >= options.len()
    &&& st.optindex + 1 < args.len()
}

/// What becomes of the argument at `st.optindex`, where `codec` and
/// `format` are what the library says of it if it is asked.  `--` is
/// noted.  An argument that is no option ends a group of the first kind.
/// An option that ends a kind of group ends a group of that kind with the
/// next argument, which must be there.  Any other option is an option of
/// the program, or else what `sort_unknown` says.
pub open spec fn sort_argument<'global, U>(
    args: Seq<Seq<char>>,
    options: Seq<OptionDef<'global, U>>,
    groups: Seq<OptionGroupDef<'global>>,
    st: Split<'global, U>,
    codec: Lookup,
    format: Lookup,
) -> Sorting<'global, U> {
    let written = encode_utf8(args[st.optindex]);
    let next = st.optindex + 1;
    let opt = option_at(args, st);
    let group = first_ended_by(groups, opt, 0);
    let known = first_named(options, option_key(opt), 0);
    if written == dashes() {
        Sorting::Going(Split { optindex: next, dashdash: Some(next), ..st })
    } else if !is_option(args, st) {
        Sorting::Going(
            Split {
                ctx: with_group_finished(st.ctx, 0, written),
                optindex: next,
                operations: st.operations.push(Operation::FinishGroup { group: 0, arg: written }),
                ..st
            },
        )
    } else if group < groups.len() {
        if next < args.len() {
            let arg = encode_utf8(args[next]);
            Sorting::Going(
                Split {
                    ctx: with_group_finished(st.ctx, group, arg),
                    optindex: next + 1,
                    operations: st.operations.push(
                        Operation::FinishGroup { group: group as nat, arg },
                    ),
                    ..st
                },
            )
        } else {
            Sorting::Failed(SplitFailure::MissingArgument { opt }, st)
        }
    } else if known < options.len() {
        sort_known(args, st, options[known], opt)
    } else {
        sort_unknown(args, options, st, opt, codec, format)
    }
}

/// What has become of splitting `args` after `k` steps from `start`, where
/// `answers[i]` is what the library said of the codec option and of the
/// format option in step `i`.  Each step looks at the argument at the
/// position the split has got to; behind the last argument nothing
/// changes.
pub open spec fn sorted<'global, U>(
    args: Seq<Seq<char>>,
    options: Seq<OptionDef<'global, U>>,
    groups: Seq<OptionGroupDef<'global>>,
    start: Split<'global, U>,
    answers: Seq<(Lookup, Lookup)>,
    k: nat,
) -> Sorting<'global, U>
    decreases k,
{
    if k == 0 {
        Sorting::Going(start)
    } else {
        match sorted(args, options, groups, start, answers, (k - 1) as nat) {
            Sorting::Going(st) => if st.optindex < args.len() {
                sort_argument(args, options, groups, st, answers[k - 1].0, answers[k - 1].1)
            } else {
                Sorting::Going(st)
            },
            failed => failed,
        }
    }
}

/// Whether `answers[i]` is what `library` said in step `i` of splitting
/// `args`, for each `i` in which it was asked, and each of these steps
/// found an argument to look at.
pub open spec fn looked_up_each<'global, U, F: Fn(OptionClass, &[u8], bool) -> Lookup>(
    library: &F,
    args: Seq<Seq<char>>,
    options: Seq<OptionDef<'global, U>>,
    groups: Seq<OptionGroupDef<'global>>,
    start: Split<'global, U>,
    answers: Seq<(Lookup, Lookup)>,
) -> bool {
    forall|i: int|
        0 <= i < answers.len() ==> match #[trigger] sorted(
            args,
            options,
            groups,
            start,
            answers,
            i as nat,
        ) {
            Sorting::Going(st) => {
                &&& st.optindex < args.len()
                &&& asks_library(args, options, groups, st) ==> {
                    &&& codec_looked_up(library, option_at(args, st), answers[i].0)
                    &&& format_looked_up(library, option_at(args, st), answers[i].1)
                }
            },
            Sorting::Failed(_, _) => false,
        }
}

/// What `sorted` says of the first `k` steps depends on the first `k`
/// answers alone.
pub proof fn lemma_sorted_prefix<'global, U>(
    args: Seq<Seq<char>>,
    options: Seq<OptionDef<'global, U>>,
    groups: Seq<OptionGroupDef<'global>>,
    start: Split<'global, U>,
    a: Seq<(Lookup, Lookup)>,
    b: Seq<(Lookup, Lookup)>,
    k: nat,
)
    requires
        k <= a.len(),
        k <= b.len(),
        forall|i: int| 0 <= i < k ==> a[i] == b[i],
    ensures
        sorted(args, options, groups, start, a, k) == sorted(args, options, groups, start, b, k),
    decreases k,
{
    if k > 0 {
        lemma_sorted_prefix(args, options, groups, start, a, b, (k - 1) as nat);
    }
}

/// One more step, with the answer of the library if it was asked.
pub proof fn lemma_looked_up_push<'global, U, F: Fn(OptionClass, &[u8], bool) -> Lookup>(
    library: &F,
    args: Seq<Seq<char>>,
    options: Seq<OptionDef<'global, U>>,
    groups: Seq<OptionGroupDef<'global>>,
    start: Split<'global, U>,
    answers: Seq<(Lookup, Lookup)>,
    st: Split<'global, U>,
    codec: Lookup,
    format: Lookup,
)
    requires
        looked_up_each(library, args, options, groups, start, answers),
        sorted(args, options, groups, start, answers, answers.len()) == Sorting::Going(st),
        st.optindex < args.len(),
        asks_library(args, options, groups, st) ==> codec_looked_up(
            library,
            option_at(args, st),
            codec,
        ) && format_looked_up(library, option_at(args, st), format),
    ensures
        looked_up_each(library, args, options, groups, start, answers.push((codec, format))),
        sorted(
            args,
            options,
            groups,
            start,
            answers.push((codec, format)),
            answers.len() + 1,
        ) == sort_argument(args, options, groups, st, codec, format),
{
    let more = answers.push((codec, format));
    assert forall|i: int| 0 <= i < more.len() implies match #[trigger] sorted(
        args,
        options,
        groups,
        start,
        more,
        i as nat,
    ) {
        Sorting::Going(st) => {
            &&& st.optindex < args.len()
            &&& asks_library(args, options, groups, st) ==> {
                &&& codec_looked_up(library, option_at(args, st), more[i].0)
                &&& format_looked_up(library, option_at(args, st), more[i].1)
            }
        },
        Sorting::Failed(_, _) => false,
    } by {
        lemma_sorted_prefix(args, options, groups, start, more, answers, i as nat);
        if i < answers.len() {
            assert(more[i] == answers[i]);
        }
    }
    lemma_sorted_prefix(args, options, groups, start, more, answers, answers.len());
}

/// Where splitting begins: at the argument behind the name of the program,
/// with no `--` seen and nothing made of the arguments yet.
pub open spec fn start_of<'global, U>(
    octx: OptionParseContext<'global, U>,
    filtergraph: Option<String>,
) -> Split<'global, U> {
    Split {
        ctx: octx@,
        optindex: 1,
        dashdash: None,
        filtergraph: opt_text(filtergraph),
        operations: Seq::empty(),
    }
}

/// Each step moves on in the command line.
pub proof fn lemma_sort_argument_advances<'global, U>(
    args: Seq<Seq<char>>,
    options: Seq<OptionDef<'global, U>>,
    groups: Seq<OptionGroupDef<'global>>,
    st: Split<'global, U>,
    codec: Lookup,
    format: Lookup,
)
    ensures
        sort_argument(args, options, groups, st, codec, format) matches Sorting::Going(next)
            ==> st.optindex < next.optindex,
{
}

/// The characters of an optional string.
pub open spec fn opt_text(o: Option<String>) -> Option<Seq<char>> {
    match o {
        Some(s) => Some(s@),
        None => None,
    }
}

/// Whether splitting came to `sorting` when the call returned `res` and
/// left the context `ctx` and the filtergraph `filtergraph`: either every
/// argument was looked at, and `res` holds what was made of them, or an
/// argument was not accepted, and `res` says why.
pub open spec fn split_result<'global, U>(
    sorting: Sorting<'global, U>,
    args: Seq<Seq<char>>,
    res: Result<Vec<ArgOperation>, SplitError>,
    ctx: Context<'global, U>,
    filtergraph: Option<Seq<char>>,
) -> bool {
    match sorting {
        Sorting::Going(st) => {
            &&& st.optindex >= args.len()
            &&& st.ctx == ctx
            &&& st.filtergraph == filtergraph
            &&& res matches Ok(operations) && operations.deep_view() == st.operations
        },
        Sorting::Failed(failure, st) => {
            &&& st.ctx == ctx
            &&& st.filtergraph == filtergraph
            &&& res matches Err(e) && e@ == failure
        },
    }
}

/// Whether the option `opt` names a filtergraph.
fn is_filtergraph_option(opt: &[u8]) -> (names: bool)
    ensures
        names == names_filtergraph(opt@),
{
    // `vf`, `af` and `filter_complex`
    let vf: [u8; 2] = [118, 102];
    let af: [u8; 2] = [97, 102];
    let filter_complex: [u8; 14] = [
        102, 105, 108, 116, 101, 114, 95, 99, 111, 109, 112, 108, 101, 120,
    ];
    assert(vf@ =~= seq![118u8, 102u8]);
    assert(af@ =~= seq![97u8, 102u8]);
    assert(filter_complex@ =~= seq![
        102u8,
        105u8,
        108u8,
        116u8,
        101u8,
        114u8,
        95u8,
        99u8,
        111u8,
        109u8,
        112u8,
        108u8,
        101u8,
        120u8,
    ]);
    bytes_eq(opt, vf.as_slice()) || bytes_eq(opt, af.as_slice()) || bytes_eq(
        opt,
        filter_complex.as_slice(),
    )
}

/// Adds the option `po`, written as `opt`, with the argument `arg`, and
/// keeps the argument if the option names a filtergraph.
fn accept<'global, U>(
    octx: &mut OptionParseContext<'global, U>,
    filtergraph: &mut Option<String>,
    operations: &mut Vec<ArgOperation>,
    po: &'global OptionDef<'global, U>,
    opt: &[u8],
    arg: &str,
)
    ensures
        final(octx)@ == with_option(
            old(octx)@,
            KeyValue { opt: *po, key: opt@, val: encode_utf8(arg@) },
        ),
        opt_text(*final(filtergraph)) == if names_filtergraph(opt@) {
            Some(arg@)
        } else {
            opt_text(*old(filtergraph))
        },
        final(operations).deep_view() == old(operations).deep_view().push(
            Operation::AddOpt { opt: opt@, arg: encode_utf8(arg@) },
        ),
{
    if is_filtergraph_option(opt) {
        *filtergraph = Some(arg.to_owned());
    }
    add_opt(octx, po, opt, arg.as_bytes());
    let ghost before = operations.deep_view();
    let operation = ArgOperation::AddOpt(slice_to_vec(opt), slice_to_vec(arg.as_bytes()));
    operations.push(operation);
    assert(operations.deep_view() =~= before.push(operation@));
}

/// The mathematical value of an optional position.
pub open spec fn opt_int(o: Option<usize>) -> Option<int> {
    match o {
        Some(i) => Some(i as int),
        None => None,
    }
}

/// The split that the values of a call stand for.
pub open spec fn split_of<'global, U>(
    octx: OptionParseContext<'global, U>,
    optindex: usize,
    dashdash: Option<usize>,
    filtergraph: Option<String>,
    operations: Vec<ArgOperation>,
) -> Split<'global, U> {
    Split {
        ctx: octx@,
        optindex: optindex as int,
        dashdash: opt_int(dashdash),
        filtergraph: opt_text(filtergraph),
        operations: operations.deep_view(),
    }
}

/// Whether one step took the split from `before` to `after` and returned
/// `res`, with `codec` and `format` for what `library` said: the answers
/// are those of `library` if it was asked, and the step did what
/// `sort_argument` says for them.
pub open spec fn step_made<'global, U, F: Fn(OptionClass, &[u8], bool) -> Lookup>(
    library: &F,
    args: Seq<Seq<char>>,
    options: Seq<OptionDef<'global, U>>,
    groups: Seq<OptionGroupDef<'global>>,
    before: Split<'global, U>,
    codec: Lookup,
    format: Lookup,
    res: Result<(), SplitError>,
    after: Split<'global, U>,
) -> bool {
    &&& asks_library(args, options, groups, before) ==> {
        &&& codec_looked_up(library, option_at(args, before), codec)
        &&& format_looked_up(library, option_at(args, before), format)
    }
    &&& match sort_argument(args, options, groups, before, codec, format) {
        Sorting::Going(next) => res.is_ok() && next == after,
        Sorting::Failed(failure, at) => res matches Err(e) && e@ == failure && at == after,
    }
}

/// Looks at the argument at `optindex`, and at the one behind it where the
/// argument takes one.  `library` is asked where `asks_library` says so.
/// What becomes of the split is what `sort_argument` says for the answers
/// of `library`.
pub fn sort_next<'global, U, F: Fn(OptionClass, &[u8], bool) -> Lookup>(
    octx: &mut OptionParseContext<'global, U>,
    args: &[String],
    optindex: &mut usize,
    dashdash: &mut Option<usize>,
    options: &'global [OptionDef<'global, U>],
    groups: &'global [OptionGroupDef<'global>],
    filtergraph: &mut Option<String>,
    operations: &mut Vec<ArgOperation>,
    library: &F,
) -> (res: Result<(), SplitError>)
    requires
        looks_up_all(library),
        *old(optindex) < args@.len(),
        old(octx)@.groups.len() > 0,
        groups@.len() <= old(octx)@.groups.len(),
    ensures
        final(octx)@.groups.len() == old(octx)@.groups.len(),
        exists|codec: Lookup, format: Lookup| #[trigger]
            step_made(
                library,
                args.deep_view(),
                options@,
                groups@,
                split_of(
                    *old(octx),
                    *old(optindex),
                    *old(dashdash),
                    *old(filtergraph),
                    *old(operations),
                ),
                codec,
                format,
                res,
                split_of(
                    *final(octx),
                    *final(optindex),
                    *final(dashdash),
                    *final(filtergraph),
                    *final(operations),
                ),
            ),
{
    let ghost st = split_of(*octx, *optindex, *dashdash, *filtergraph, *operations);
    let ghost all = args.deep_view();
    let argc = args.len();
    let here = *optindex;
    let next = here + 1;
    let written = args[here].as_str().as_bytes();
    assert(written@ == encode_utf8(all[here as int]));
    // `--`
    let dashes_lit: [u8; 2] = [45, 45];
    assert(dashes_lit@ =~= dashes());
    if bytes_eq(written, dashes_lit.as_slice()) {
        *dashdash = Some(next);
        *optindex = next;
        assert(step_made(
            library,
            all,
            options@,
            groups@,
            st,
            Lookup::Absent,
            Lookup::Absent,
            Ok::<(), SplitError>(()),
            split_of(*octx, *optindex, *dashdash, *filtergraph, *operations),
        ));
        return Ok(());
    }
    let behind_dashes = match *dashdash {
        Some(d) => d == here,
        None => false,
    };
    if written.len() <= 1 || written[0] != MINUS || behind_dashes {
        finish_group(octx, 0, written);
        let ghost before = operations.deep_view();
        let operation = ArgOperation::FinishGroup(0, slice_to_vec(written));
        operations.push(operation);
        assert(operations.deep_view() =~= before.push(operation@));
        *optindex = next;
        assert(step_made(
            library,
            all,
            options@,
            groups@,
            st,
            Lookup::Absent,
            Lookup::Absent,
            Ok::<(), SplitError>(()),
            split_of(*octx, *optindex, *dashdash, *filtergraph, *operations),
        ));
        return Ok(());
    }
    let opt = slice_subrange(written, 1, written.len());
    assert(opt@ == option_at(all, st));
    assert(is_option(all, st));
    proof {
        lemma_first_ended_by_bounds(groups@, opt@, 0);
        lemma_first_named_bounds(options@, option_key(opt@), 0);
    }
    match group_ended_by(groups, opt) {
        Some(group) => {
            if next < argc {
                let arg = args[next].as_str().as_bytes();
                assert(arg@ == encode_utf8(all[next as int]));
                finish_group(octx, group, arg);
                let ghost before = operations.deep_view();
                let operation = ArgOperation::FinishGroup(group, slice_to_vec(arg));
                operations.push(operation);
                assert(operations.deep_view() =~= before.push(operation@));
                *optindex = next + 1;
                assert(step_made(
                    library,
                    all,
                    options@,
                    groups@,
                    st,
                    Lookup::Absent,
                    Lookup::Absent,
                    Ok::<(), SplitError>(()),
                    split_of(*octx, *optindex, *dashdash, *filtergraph, *operations),
                ));
                return Ok(());
            } else {
                let e = SplitError::MissingArgument { opt: slice_to_vec(opt) };
                assert(step_made(
                    library,
                    all,
                    options@,
                    groups@,
                    st,
                    Lookup::Absent,
                    Lookup::Absent,
                    Err::<(), SplitError>(e),
                    st,
                ));
                return Err(e);
            }
        },
        None => {},
    }
    match option_named(options, opt) {
        Some(po) => {
            proof {
                reveal_strlit("");
                reveal_strlit("1");
                assert(""@ =~= Seq::<char>::empty());
                assert("1"@ =~= seq!['1']);
            }
            if po.flags.intersects(OptionFlag::from_bits(OptionFlag::OPT_EXIT)) {
                if next < argc {
                    accept(octx, filtergraph, operations, po, opt, args[next].as_str());
                    *optindex = next + 1;
                } else {
                    accept(octx, filtergraph, operations, po, opt, "");
                    *optindex = next;
                }
            } else if po.flags.intersects(OptionFlag::from_bits(OptionFlag::HAS_ARG)) {
                if next < argc {
                    accept(octx, filtergraph, operations, po, opt, args[next].as_str());
                    *optindex = next + 1;
                } else {
                    let e = SplitError::MissingArgument { opt: slice_to_vec(opt) };
                    assert(step_made(
                        library,
                        all,
                        options@,
                        groups@,
                        st,
                        Lookup::Absent,
                        Lookup::Absent,
                        Err::<(), SplitError>(e),
                        st,
                    ));
                    return Err(e);
                }
            } else {
                accept(octx, filtergraph, operations, po, opt, "1");
                *optindex = next;
            }
            assert(step_made(
                library,
                all,
                options@,
                groups@,
                st,
                Lookup::Absent,
                Lookup::Absent,
                Ok::<(), SplitError>(()),
                split_of(*octx, *optindex, *dashdash, *filtergraph, *operations),
            ));
            return Ok(());
        },
        None => {},
    }
    let ghost mut codec = Lookup::Absent;
    let ghost mut format = Lookup::Absent;
    if next < argc {
        let arg = args[next].as_str().as_bytes();
        assert(arg@ == encode_utf8(all[next as int]));
        let ghost waiting = octx.cur_group@;
        let consumed = opt_default(&mut octx.cur_group, opt, arg, library);
        proof {
            let found = choose|codec: Lookup, format: Lookup|
                {
                    &&& #[trigger] codec_looked_up(library, opt@, codec)
                    &&& #[trigger] format_looked_up(library, opt@, format)
                    &&& octx.cur_group@ == with_default(waiting, opt@, arg@, codec, format)
                    &&& consumed == (codec is Found || format is Found)
                };
            codec = found.0;
            format = found.1;
        }
        if consumed {
            let ghost before = operations.deep_view();
            let operation = ArgOperation::OptDefault(slice_to_vec(opt), slice_to_vec(arg));
            operations.push(operation);
            assert(operations.deep_view() =~= before.push(operation@));
            *optindex = next + 1;
            assert(step_made(
                library,
                all,
                options@,
                groups@,
                st,
                codec,
                format,
                Ok::<(), SplitError>(()),
                split_of(*octx, *optindex, *dashdash, *filtergraph, *operations),
            ));
            return Ok(());
        }
        assert(octx.cur_group@ == waiting);
    }
    // `no`
    if opt.len() >= 2 && opt[0] == 110 && opt[1] == 111 {
        match option_named(options, slice_subrange(opt, 2, opt.len())) {
            Some(po) => {
                if po.flags.contains(OptionFlag::from_bits(OptionFlag::OPT_BOOL)) {
                    proof {
                        reveal_strlit("0");
                        assert("0"@ =~= seq!['0']);
                    }
                    add_opt(octx, po, opt, "0".as_bytes());
                    let ghost before = operations.deep_view();
                    let operation = ArgOperation::AddOpt(
                        slice_to_vec(slice_subrange(opt, 2, opt.len())),
                        slice_to_vec(opt),
                    );
                    operations.push(operation);
                    assert(operations.deep_view() =~= before.push(operation@));
                    *optindex = next;
                    assert(step_made(
                        library,
                        all,
                        options@,
                        groups@,
                        st,
                        codec,
                        format,
                        Ok::<(), SplitError>(()),
                        split_of(*octx, *optindex, *dashdash, *filtergraph, *operations),
                    ));
                    return Ok(());
                }
            },
            None => {},
        }
    }
    let e = SplitError::UnrecognizedOption { opt: slice_to_vec(opt) };
    assert(step_made(
        library,
        all,
        options@,
        groups@,
        st,
        codec,
        format,
        Err::<(), SplitError>(e),
        st,
    ));
    Err(e)
}

/// Splits the command line `args`, whose first argument is the name of the
/// program, into groups of options, which are added to `octx`.  The
/// argument of the last option that names a filtergraph is kept in
/// `filtergraph`.  `library` is asked about the options that the program
/// does not have.  The result is what `sorted` says for the answers of
/// `library`: what was made of the arguments, or why one was not accepted.
///
/// `octx` has a list of groups for each kind of `groups`, and for the
/// first kind at least.
pub fn split_commandline<'global, U, F: Fn(OptionClass, &[u8], bool) -> Lookup>(
    octx: &mut OptionParseContext<'global, U>,
    args: &[String],
    options: &'global [OptionDef<'global, U>],
    groups: &'global [OptionGroupDef<'global>],
    filtergraph: &mut Option<String>,
    library: &F,
) -> (res: Result<Vec<ArgOperation>, SplitError>)
    requires
        looks_up_all(library),
        old(octx)@.groups.len() > 0,
        groups@.len() <= old(octx)@.groups.len(),
    ensures
        exists|answers: Seq<(Lookup, Lookup)>|
            {
                &&& #[trigger] looked_up_each(
                    library,
                    args.deep_view(),
                    options@,
                    groups@,
                    start_of(*old(octx), *old(filtergraph)),
                    answers,
                )
                &&& split_result(
                    sorted(
                        args.deep_view(),
                        options@,
                        groups@,
                        start_of(*old(octx), *old(filtergraph)),
                        answers,
                        answers.len(),
                    ),
                    args.deep_view(),
                    res,
                    final(octx)@,
                    opt_text(*final(filtergraph)),
                )
            },
{
    let ghost all = args.deep_view();
    let ghost start = start_of(*octx, *filtergraph);
    let ghost mut answers = Seq::<(Lookup, Lookup)>::empty();
    let mut operations: Vec<ArgOperation> = Vec::new();
    let mut optindex: usize = 1;
    let mut dashdash: Option<usize> = None;
    assert(operations.deep_view() =~= Seq::empty());
    while optindex < args.len()
        invariant
            looks_up_all(library),
            all == args.deep_view(),
            start == start_of(*old(octx), *old(filtergraph)),
            octx@.groups.len() > 0,
            groups@.len() <= octx@.groups.len(),
            looked_up_each(library, all, options@, groups@, start, answers),
            sorted(all, options@, groups@, start, answers, answers.len()) == Sorting::Going(
                split_of(*octx, optindex, dashdash, *filtergraph, operations),
            ),
        decreases args@.len() - optindex,
    {
        let ghost st = split_of(*octx, optindex, dashdash, *filtergraph, operations);
        let ghost before = optindex;
        let step = sort_next(
            octx,
            args,
            &mut optindex,
            &mut dashdash,
            options,
            groups,
            filtergraph,
            &mut operations,
            library,
        );
        let ghost after = split_of(*octx, optindex, dashdash, *filtergraph, operations);
        proof {
            let found = choose|codec: Lookup, format: Lookup| #[trigger]
                step_made(library, all, options@, groups@, st, codec, format, step, after);
            lemma_looked_up_push(
                library,
                all,
                options@,
                groups@,
                start,
                answers,
                st,
                found.0,
                found.1,
            );
            answers = answers.push(found);
            lemma_sort_argument_advances(all, options@, groups@, st, found.0, found.1);
        }
        match step {
            Ok(()) => {},
            Err(e) => {
                return Err(e);
            },
        }
    }
    Ok(operations)
}

} // verus!
