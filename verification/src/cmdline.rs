//! Sorting the arguments of a command line into groups of options: the
//! global options, and one group for each input and output file.

use crate::options::{option_key, OptionDef, OptionFlag, OptionGroupDef};
use crate::scanner::{is_byte, scan_to, COLON};
use vstd::prelude::*;
use vstd::slice::{slice_subrange, slice_to_vec};

verus! {

/// Model of a [`DictSet`].
pub struct Setting {
    pub key: Seq<u8>,
    pub value: Seq<u8>,
    pub append: bool,
}

/// One entry to make in a dictionary of library options: `key` is set to
/// `value`, or, with `append`, `value` is put behind what `key` is set to
/// already.
#[derive(Debug)]
pub struct DictSet {
    pub key: Vec<u8>,
    pub value: Vec<u8>,
    pub append: bool,
}

impl View for DictSet {
    type V = Setting;

    open spec fn view(&self) -> Setting {
        Setting { key: self.key@, value: self.value@, append: self.append }
    }
}

impl DeepView for DictSet {
    type V = Setting;

    open spec fn deep_view(&self) -> Setting {
        self@
    }
}

/// Model of an [`OptionKV`].
pub struct KeyValue<'global, U> {
    pub opt: OptionDef<'global, U>,
    pub key: Seq<u8>,
    pub val: Seq<u8>,
}

/// An option as it stands on the command line: which option it is, how it
/// was written, and its argument.
#[derive(Debug)]
pub struct OptionKV<'global, U> {
    pub opt: &'global OptionDef<'global, U>,
    pub key: Vec<u8>,
    pub val: Vec<u8>,
}

impl<'global, U> View for OptionKV<'global, U> {
    type V = KeyValue<'global, U>;

    open spec fn view(&self) -> KeyValue<'global, U> {
        KeyValue { opt: *self.opt, key: self.key@, val: self.val@ }
    }
}

impl<'global, U> DeepView for OptionKV<'global, U> {
    type V = KeyValue<'global, U>;

    open spec fn deep_view(&self) -> KeyValue<'global, U> {
        self@
    }
}

/// Model of an [`OptionGroup`].
pub struct Group<'global, U> {
    pub group_def: OptionGroupDef<'global>,
    pub arg: Seq<u8>,
    pub opts: Seq<KeyValue<'global, U>>,
    pub codec_opts: Seq<Setting>,
    pub format_opts: Seq<Setting>,
    pub resample_opts: Seq<Setting>,
    pub sws_dict: Seq<Setting>,
    pub swr_opts: Seq<Setting>,
}

/// The options of one file, or the global options.
#[derive(Debug)]
pub struct OptionGroup<'global, U> {
    /// The kind of group.
    pub group_def: &'global OptionGroupDef<'global>,
    /// The argument that ended the group: the name of the file.
    pub arg: Vec<u8>,
    /// The options of the group, in the order of the command line.
    pub opts: Vec<OptionKV<'global, U>>,
    /// The entries for the dictionary of codec options, in order.
    pub codec_opts: Vec<DictSet>,
    /// The entries for the dictionary of format options, in order.
    pub format_opts: Vec<DictSet>,
    /// The entries for the dictionary of resampler options, in order.
    pub resample_opts: Vec<DictSet>,
    /// The entries for the dictionary of scaler options, in order.
    pub sws_dict: Vec<DictSet>,
    /// The entries for the dictionary of audio resampler options, in order.
    pub swr_opts: Vec<DictSet>,
}

impl<'global, U> View for OptionGroup<'global, U> {
    type V = Group<'global, U>;

    open spec fn view(&self) -> Group<'global, U> {
        Group {
            group_def: *self.group_def,
            arg: self.arg@,
            opts: self.opts.deep_view(),
            codec_opts: self.codec_opts.deep_view(),
            format_opts: self.format_opts.deep_view(),
            resample_opts: self.resample_opts.deep_view(),
            sws_dict: self.sws_dict.deep_view(),
            swr_opts: self.swr_opts.deep_view(),
        }
    }
}

impl<'global, U> DeepView for OptionGroup<'global, U> {
    type V = Group<'global, U>;

    open spec fn deep_view(&self) -> Group<'global, U> {
        self@
    }
}

/// A group of kind `def` that holds nothing.
pub open spec fn empty_group<'global, U>(def: OptionGroupDef<'global>) -> Group<
    'global,
    U,
> {
    Group {
        group_def: def,
        arg: Seq::empty(),
        opts: Seq::empty(),
        codec_opts: Seq::empty(),
        format_opts: Seq::empty(),
        resample_opts: Seq::empty(),
        sws_dict: Seq::empty(),
        swr_opts: Seq::empty(),
    }
}

/// The kind of the group of global options.
pub open spec fn global_def() -> OptionGroupDef<'static> {
    OptionGroupDef { name: "global", sep: None, flags: OptionFlag { bits: 0 } }
}

/// The kind of the group in which options gather until an argument ends
/// their group.  It stands in for a kind that is not known yet, and is
/// never looked at.
pub open spec fn anonymous_def() -> OptionGroupDef<'static> {
    OptionGroupDef { name: "never_used", sep: None, flags: OptionFlag { bits: 0 } }
}

impl<'global, U> OptionGroup<'global, U> {
    /// An empty group of kind `def`.
    pub fn new(def: &'global OptionGroupDef<'global>) -> (g: Self)
        ensures
            g@ == empty_group::<U>(*def),
    {
        let g = OptionGroup {
            group_def: def,
            arg: Vec::new(),
            opts: Vec::new(),
            codec_opts: Vec::new(),
            format_opts: Vec::new(),
            resample_opts: Vec::new(),
            sws_dict: Vec::new(),
            swr_opts: Vec::new(),
        };
        assert(g.opts.deep_view() =~= Seq::empty());
        assert(g.codec_opts.deep_view() =~= Seq::empty());
        assert(g.format_opts.deep_view() =~= Seq::empty());
        assert(g.resample_opts.deep_view() =~= Seq::empty());
        assert(g.sws_dict.deep_view() =~= Seq::empty());
        assert(g.swr_opts.deep_view() =~= Seq::empty());
        g
    }

    /// The empty group of global options.
    pub fn new_global() -> (g: Self)
        ensures
            g@ == empty_group::<U>(global_def()),
    {
        Self::new(
            &OptionGroupDef { name: "global", sep: None, flags: OptionFlag { bits: 0 } },
        )
    }

    /// The empty group in which options gather until a file name ends the
    /// group.  Its kind is never looked at.
    pub fn new_anonymous() -> (g: Self)
        ensures
            g@ == empty_group::<U>(anonymous_def()),
    {
        Self::new(
            &OptionGroupDef { name: "never_used", sep: None, flags: OptionFlag { bits: 0 } },
        )
    }
}

/// Model of an [`OptionGroupList`].
pub struct GroupList<'global, U> {
    pub group_def: OptionGroupDef<'global>,
    pub groups: Seq<Group<'global, U>>,
}

/// The groups of one kind, such as the groups of all output files, in the
/// order of the command line.
#[derive(Debug)]
pub struct OptionGroupList<'global, U> {
    pub group_def: &'global OptionGroupDef<'global>,
    pub groups: Vec<OptionGroup<'global, U>>,
}

impl<'global, U> View for OptionGroupList<'global, U> {
    type V = GroupList<'global, U>;

    open spec fn view(&self) -> GroupList<'global, U> {
        GroupList { group_def: *self.group_def, groups: self.groups.deep_view() }
    }
}

impl<'global, U> DeepView for OptionGroupList<'global, U> {
    type V = GroupList<'global, U>;

    open spec fn deep_view(&self) -> GroupList<'global, U> {
        self@
    }
}

/// Model of an [`OptionParseContext`].
pub struct Context<'global, U> {
    pub global_opts: Group<'global, U>,
    pub groups: Seq<GroupList<'global, U>>,
    pub cur_group: Group<'global, U>,
}

/// What has been made of a command line so far.
#[derive(Debug)]
pub struct OptionParseContext<'global, U> {
    /// The global options.
    pub global_opts: OptionGroup<'global, U>,
    /// The groups that are complete, by kind.
    pub groups: Vec<OptionGroupList<'global, U>>,
    /// The options that wait for the argument that ends their group.
    pub cur_group: OptionGroup<'global, U>,
}

impl<'global, U> View for OptionParseContext<'global, U> {
    type V = Context<'global, U>;

    open spec fn view(&self) -> Context<'global, U> {
        Context {
            global_opts: self.global_opts@,
            groups: self.groups.deep_view(),
            cur_group: self.cur_group@,
        }
    }
}

/// The context to begin with: one empty list for each kind of `groups`,
/// no global option, and no option that waits.
pub fn init_parse_context<'global, U>(groups: &'global [OptionGroupDef<'global>]) -> (octx:
    OptionParseContext<'global, U>)
    ensures
        octx@.groups.len() == groups@.len(),
        forall|i: int|
            0 <= i < groups@.len() ==> #[trigger] octx@.groups[i] == (GroupList::<U> {
                group_def: groups@[i],
                groups: Seq::empty(),
            }),
        octx@.global_opts == empty_group::<U>(global_def()),
        octx@.cur_group == empty_group::<U>(anonymous_def()),
{
    let mut lists: Vec<OptionGroupList<'global, U>> = Vec::new();
    let mut i: usize = 0;
    while i < groups.len()
        invariant
            i <= groups@.len(),
            lists@.len() == i,
            forall|j: int|
                0 <= j < i ==> #[trigger] lists.deep_view()[j] == (GroupList::<U> {
                    group_def: groups@[j],
                    groups: Seq::empty(),
                }),
        decreases groups@.len() - i,
    {
        let list = OptionGroupList { group_def: &groups[i], groups: Vec::new() };
        assert(list.groups.deep_view() =~= Seq::empty());
        let ghost before = lists.deep_view();
        lists.push(list);
        assert(lists.deep_view() =~= before.push(list@));
        i = i + 1;
    }
    OptionParseContext {
        groups: lists,
        global_opts: OptionGroup::new_global(),
        cur_group: OptionGroup::new_anonymous(),
    }
}

/// The properties that make an option belong to a file: an option with
/// none of them is global.
pub open spec fn per_file_flags() -> u64 {
    OptionFlag::OPT_PERFILE | OptionFlag::OPT_SPEC | OptionFlag::OPT_OFFSET
}

/// Whether an option with the properties `flags` is global.
pub open spec fn is_global(flags: OptionFlag) -> bool {
    flags@ & per_file_flags() == 0
}

/// The context `c` with one more option: among the global options if the
/// option is global, and else among the options that wait.
pub open spec fn with_option<'global, U>(
    c: Context<'global, U>,
    kv: KeyValue<'global, U>,
) -> Context<'global, U> {
    if is_global(kv.opt.flags) {
        Context { global_opts: Group { opts: c.global_opts.opts.push(kv), ..c.global_opts }, ..c }
    } else {
        Context { cur_group: Group { opts: c.cur_group.opts.push(kv), ..c.cur_group }, ..c }
    }
}

/// Adds the option `opt`, written as `key` with the argument `val`, to the
/// global options or to the options that wait.
pub fn add_opt<'global, U>(
    octx: &mut OptionParseContext<'global, U>,
    opt: &'global OptionDef<'global, U>,
    key: &[u8],
    val: &[u8],
)
    ensures
        final(octx)@ == with_option(old(octx)@, KeyValue { opt: *opt, key: key@, val: val@ }),
{
    let global = !opt.flags.intersects(
        OptionFlag::from_bits(
            OptionFlag::OPT_PERFILE | OptionFlag::OPT_SPEC | OptionFlag::OPT_OFFSET,
        ),
    );
    let kv = OptionKV { opt, key: slice_to_vec(key), val: slice_to_vec(val) };
    if global {
        let ghost before = octx.global_opts.opts.deep_view();
        octx.global_opts.opts.push(kv);
        assert(octx.global_opts.opts.deep_view() =~= before.push(kv@));
    } else {
        let ghost before = octx.cur_group.opts.deep_view();
        octx.cur_group.opts.push(kv);
        assert(octx.cur_group.opts.deep_view() =~= before.push(kv@));
    }
}

/// The entry with which every dictionary of scaler options begins:
/// `flags` is set to `bicubic`.
pub open spec fn scaler_default() -> Setting {
    Setting {
        key: seq![102u8, 108u8, 97u8, 103u8, 115u8],
        value: seq![98u8, 105u8, 99u8, 117u8, 98u8, 105u8, 99u8],
        append: false,
    }
}

/// The group in which options gather after a group has been finished: it
/// holds the default of the scaler options, and nothing else.
pub open spec fn fresh_group<'global, U>() -> Group<'global, U> {
    Group { sws_dict: seq![scaler_default()], ..empty_group(anonymous_def()) }
}

/// The context `c` once the argument `arg` has ended a group of the kind at
/// `group_idx`: the options that waited, with their dictionaries, become
/// the last group of that kind, under the name `arg`; a fresh group waits
/// in their place.
pub open spec fn with_group_finished<'global, U>(
    c: Context<'global, U>,
    group_idx: int,
    arg: Seq<u8>,
) -> Context<'global, U> {
    let list = c.groups[group_idx];
    let done = Group { group_def: list.group_def, arg, ..c.cur_group };
    Context {
        groups: c.groups.update(group_idx, GroupList { groups: list.groups.push(done), ..list }),
        cur_group: fresh_group(),
        ..c
    }
}

/// Ends the group of the options that wait: they become the last group of
/// the kind at `group_idx`, with `arg` as its argument.
pub fn finish_group<'global, U>(
    octx: &mut OptionParseContext<'global, U>,
    group_idx: usize,
    arg: &[u8],
)
    requires
        group_idx < old(octx)@.groups.len(),
    ensures
        final(octx)@ == with_group_finished(old(octx)@, group_idx as int, arg@),
{
    let mut group: OptionGroup<'global, U> = OptionGroup::new_anonymous();
    // `flags` is set to `bicubic`.
    let mut flags: Vec<u8> = Vec::new();
    flags.push(102);
    flags.push(108);
    flags.push(97);
    flags.push(103);
    flags.push(115);
    let mut bicubic: Vec<u8> = Vec::new();
    bicubic.push(98);
    bicubic.push(105);
    bicubic.push(99);
    bicubic.push(117);
    bicubic.push(98);
    bicubic.push(105);
    bicubic.push(99);
    let default = DictSet { key: flags, value: bicubic, append: false };
    assert(default@.key =~= scaler_default().key);
    assert(default@.value =~= scaler_default().value);
    group.sws_dict.push(default);
    assert(group.sws_dict.deep_view() =~= seq![scaler_default()]);
    let ghost fresh = group@;
    core::mem::swap(&mut octx.cur_group, &mut group);
    group.arg = slice_to_vec(arg);
    group.group_def = octx.groups[group_idx].group_def;
    let ghost lists = octx.groups.deep_view();
    let ghost before = octx.groups@;
    let ghost done = group@;
    octx.groups[group_idx].groups.push(group);
    assert(octx.groups@.len() == before.len());
    assert(octx.groups@[group_idx as int].groups@ == before[group_idx as int].groups@.push(group));
    assert(octx.groups@[group_idx as int].groups.deep_view() =~= before[group_idx as int]
        .groups.deep_view().push(done));
    assert(octx.groups@[group_idx as int].group_def == before[group_idx as int].group_def);
    assert(done.group_def == lists[group_idx as int].group_def);
    assert forall|j: int| 0 <= j < before.len() && j != group_idx implies octx.groups@[j]
        == before[j] by {}
    assert(octx.groups.deep_view() =~= lists.update(
        group_idx as int,
        GroupList { groups: lists[group_idx as int].groups.push(done), ..lists[group_idx as int] },
    ));
}

/// The two kinds of library objects whose options a command line may set.
#[derive(Debug, Clone, Copy, PartialEq, Eq, Structural)]
pub enum OptionClass {
    /// The codecs.
    Codec,
    /// The container formats.
    Format,
}

/// What the library says of an option name.
#[derive(Debug, Clone, Copy, PartialEq, Eq, Structural)]
pub enum Lookup {
    /// The library has no such option.
    Absent,
    /// The library has the option; `flags_type` says whether its value is
    /// a set of flags.
    Found { flags_type: bool },
}

/// `+`, which adds flags to those that are set.
pub const PLUS: u8 = 43;

/// `-`, which begins an option, and takes flags from those that are set.
pub const MINUS: u8 = 45;

/// Whether setting an option that was looked up as `found` to `arg` adds to
/// the value that is there: it does for a set of flags, where `arg` begins
/// with `+` or `-`.
pub open spec fn appends(found: Lookup, arg: Seq<u8>) -> bool {
    found == (Lookup::Found { flags_type: true }) && arg.len() > 0 && (arg[0] == MINUS || arg[0]
        == PLUS)
}

/// The group `g` once the library option `opt` has been given the argument
/// `arg`: an entry for the codec options if the codecs have the option,
/// and an entry for the format options if the formats have it.
pub open spec fn with_default<'global, U>(
    g: Group<'global, U>,
    opt: Seq<u8>,
    arg: Seq<u8>,
    codec: Lookup,
    format: Lookup,
) -> Group<'global, U> {
    let codec_opts = if codec is Found {
        g.codec_opts.push(Setting { key: opt, value: arg, append: appends(codec, arg) })
    } else {
        g.codec_opts
    };
    let format_opts = if format is Found {
        g.format_opts.push(Setting { key: opt, value: arg, append: appends(format, arg) })
    } else {
        g.format_opts
    };
    Group { codec_opts, format_opts, ..g }
}

/// Whether setting an option that was looked up as `found` to `arg` adds
/// to the value that is there.
fn is_append(found: Lookup, arg: &[u8]) -> (append: bool)
    ensures
        append == appends(found, arg@),
{
    match found {
        Lookup::Found { flags_type } => flags_type && arg.len() > 0 && (arg[0] == MINUS || arg[0]
            == PLUS),
        Lookup::Absent => false,
    }
}

/// Notes in `group` that the library option `opt` is given the argument
/// `arg`, where `codec` and `format` say whether the codecs and the
/// formats have such an option.  The result says whether either has.
pub fn apply_default<'global, U>(
    group: &mut OptionGroup<'global, U>,
    opt: &[u8],
    arg: &[u8],
    codec: Lookup,
    format: Lookup,
) -> (consumed: bool)
    ensures
        final(group)@ == with_default(old(group)@, opt@, arg@, codec, format),
        consumed == (codec is Found || format is Found),
{
    let mut consumed = false;
    match codec {
        Lookup::Found { .. } => {
            let entry = DictSet {
                key: slice_to_vec(opt),
                value: slice_to_vec(arg),
                append: is_append(codec, arg),
            };
            let ghost before = group.codec_opts.deep_view();
            group.codec_opts.push(entry);
            assert(group.codec_opts.deep_view() =~= before.push(entry@));
            consumed = true;
        },
        Lookup::Absent => {},
    }
    match format {
        Lookup::Found { .. } => {
            let entry = DictSet {
                key: slice_to_vec(opt),
                value: slice_to_vec(arg),
                append: is_append(format, arg),
            };
            let ghost before = group.format_opts.deep_view();
            group.format_opts.push(entry);
            assert(group.format_opts.deep_view() =~= before.push(entry@));
            consumed = true;
        },
        Lookup::Absent => {},
    }
    consumed
}

/// Whether `opt` begins with one of the letters that say which kind of
/// stream a codec option is for: `v`, `a` or `s`.
pub open spec fn has_media_prefix(opt: Seq<u8>) -> bool {
    opt.len() > 0 && (opt[0] == 118 || opt[0] == 97 || opt[0] == 115)
}

/// Whether `library` may be asked about every name.
pub open spec fn looks_up_all<F: Fn(OptionClass, &[u8], bool) -> Lookup>(library: &F) -> bool {
    forall|class: OptionClass, name: &[u8], children: bool|
        library.requires((class, name, children))
}

/// Whether `found` is what `library` gave when it was asked for the option
/// `name` of `class`, among the options of the class alone or, with
/// `children`, among those of its children too.
pub open spec fn looked_up<F: Fn(OptionClass, &[u8], bool) -> Lookup>(
    library: &F,
    class: OptionClass,
    name: Seq<u8>,
    children: bool,
    found: Lookup,
) -> bool {
    exists|asked: &[u8]|
        asked@ == name && #[trigger] library.ensures((class, asked, children), found)
}

/// Whether `found` is what `library` gave for the codec option `opt`.  The
/// codecs and their children are asked for `opt` up to its first `:`.
/// Where they have no such option and `opt` begins with `v`, `a` or `s`,
/// the codecs alone are asked for `opt` without that letter.
pub open spec fn codec_looked_up<F: Fn(OptionClass, &[u8], bool) -> Lookup>(
    library: &F,
    opt: Seq<u8>,
    found: Lookup,
) -> bool {
    ||| found is Found && looked_up(library, OptionClass::Codec, option_key(opt), true, found)
    ||| {
        &&& looked_up(library, OptionClass::Codec, option_key(opt), true, Lookup::Absent)
        &&& if has_media_prefix(opt) {
            looked_up(library, OptionClass::Codec, opt.subrange(1, opt.len() as int), false, found)
        } else {
            found is Absent
        }
    }
}

/// Whether `found` is what `library` gave for the format option `opt`: the
/// formats and their children are asked for all of `opt`.
pub open spec fn format_looked_up<F: Fn(OptionClass, &[u8], bool) -> Lookup>(
    library: &F,
    opt: Seq<u8>,
    found: Lookup,
) -> bool {
    looked_up(library, OptionClass::Format, opt, true, found)
}

/// Asks `library` whether the codecs have the option `opt`.
pub fn find_codec_option<F: Fn(OptionClass, &[u8], bool) -> Lookup>(
    library: &F,
    opt: &[u8],
) -> (found: Lookup)
    requires
        looks_up_all(library),
    ensures
        codec_looked_up(library, opt@, found),
{
    let mut end: usize = 0;
    while end < opt.len() && opt[end] != COLON
        invariant
            end <= opt@.len(),
            scan_to(opt@, 0, is_byte(COLON)) == scan_to(opt@, end as int, is_byte(COLON)),
        decreases opt@.len() - end,
    {
        end = end + 1;
    }
    let first = library(OptionClass::Codec, slice_subrange(opt, 0, end), true);
    match first {
        Lookup::Found { .. } => first,
        Lookup::Absent => {
            // `v`, `a` or `s`
            if opt.len() > 0 && (opt[0] == 118 || opt[0] == 97 || opt[0] == 115) {
                library(OptionClass::Codec, slice_subrange(opt, 1, opt.len()), false)
            } else {
                Lookup::Absent
            }
        },
    }
}

/// Gives the library option `opt` the argument `arg`: asks `library`
/// whether the codecs and the formats have such an option, and notes in
/// `group` what `with_default` says.  The result says whether either has.
pub fn opt_default<'global, U, F: Fn(OptionClass, &[u8], bool) -> Lookup>(
    group: &mut OptionGroup<'global, U>,
    opt: &[u8],
    arg: &[u8],
    library: &F,
) -> (consumed: bool)
    requires
        looks_up_all(library),
    ensures
        exists|codec: Lookup, format: Lookup|
            {
                &&& #[trigger] codec_looked_up(library, opt@, codec)
                &&& #[trigger] format_looked_up(library, opt@, format)
                &&& final(group)@ == with_default(old(group)@, opt@, arg@, codec, format)
                &&& consumed == (codec is Found || format is Found)
            },
{
    let codec = find_codec_option(library, opt);
    let format = library(OptionClass::Format, opt, true);
    assert(format_looked_up(library, opt@, format));
    apply_default(group, opt, arg, codec, format)
}

/// Why the options of a group were not carried out.
#[derive(Debug, Clone, Copy, PartialEq, Eq, Structural)]
pub enum OptGroupError {
    /// The option at this position may not stand in a group of this kind:
    /// it is an option for input files in a group for an output file, or
    /// the other way round.
    Misplaced { index: usize },
    /// Carrying out the option at this position failed.
    Failed { index: usize },
}

/// Whether an option with the properties `option` may stand in a group of
/// a kind with the properties `group`: it may if the kind asks for no
/// property, or if the option has one of the properties it asks for.
pub open spec fn fits(group: OptionFlag, option: OptionFlag) -> bool {
    group@ == 0 || group@ & option@ != 0
}

/// Whether `write` may be asked to carry out every option.
pub open spec fn writes_all<'global, U, W: Fn(&OptionDef<'global, U>, &[u8], &[u8]) -> bool>(
    write: &W,
) -> bool {
    forall|opt: &OptionDef<'global, U>, key: &[u8], val: &[u8]| write.requires((opt, key, val))
}

/// Whether `done` is what `write` returned when it was asked to carry out
/// the option `kv`.
pub open spec fn wrote<'global, U, W: Fn(&OptionDef<'global, U>, &[u8], &[u8]) -> bool>(
    write: &W,
    kv: KeyValue<'global, U>,
    done: bool,
) -> bool {
    exists|key: &[u8], val: &[u8]|
        key@ == kv.key && val@ == kv.val && #[trigger] write.ensures((&kv.opt, key, val), done)
}

/// Carries out the options of the group `g`, in their order, by `write`.
/// The first option that may not stand in a group of this kind, and the
/// first option that `write` fails on, ends this with an error; the
/// options behind it are not looked at.
pub fn parse_optgroup<'global, U, W: Fn(&OptionDef<'global, U>, &[u8], &[u8]) -> bool>(
    g: &OptionGroup<'global, U>,
    write: &W,
) -> (res: Result<(), OptGroupError>)
    requires
        writes_all(write),
    ensures
        match res {
            Ok(()) => forall|i: int|
                0 <= i < g@.opts.len() ==> fits(
                    g@.group_def.flags,
                    (#[trigger] g@.opts[i]).opt.flags,
                ) && wrote(write, g@.opts[i], true),
            Err(OptGroupError::Misplaced { index }) => {
                &&& index < g@.opts.len()
                &&& !fits(g@.group_def.flags, g@.opts[index as int].opt.flags)
                &&& forall|i: int|
                    0 <= i < index ==> fits(
                        g@.group_def.flags,
                        (#[trigger] g@.opts[i]).opt.flags,
                    ) && wrote(write, g@.opts[i], true)
            },
            Err(OptGroupError::Failed { index }) => {
                &&& index < g@.opts.len()
                &&& fits(g@.group_def.flags, g@.opts[index as int].opt.flags)
                &&& wrote(write, g@.opts[index as int], false)
                &&& forall|i: int|
                    0 <= i < index ==> fits(
                        g@.group_def.flags,
                        (#[trigger] g@.opts[i]).opt.flags,
                    ) && wrote(write, g@.opts[i], true)
            },
        },
{
    let mut index: usize = 0;
    while index < g.opts.len()
        invariant
            writes_all(write),
            index <= g.opts@.len(),
            g@.opts.len() == g.opts@.len(),
            forall|i: int|
                0 <= i < index ==> fits(g@.group_def.flags, (#[trigger] g@.opts[i]).opt.flags)
                    && wrote(write, g@.opts[i], true),
        decreases g.opts@.len() - index,
    {
        let o = &g.opts[index];
        assert(g@.opts[index as int] == o@);
        if !g.group_def.flags.is_empty() && !g.group_def.flags.intersects(o.opt.flags) {
            return Err(OptGroupError::Misplaced { index });
        }
        let done = write(o.opt, o.key.as_slice(), o.val.as_slice());
        assert(wrote(write, o@, done));
        if !done {
            return Err(OptGroupError::Failed { index });
        }
        index = index + 1;
    }
    Ok(())
}

} // verus!
