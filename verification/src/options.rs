//! The tables that describe command-line options: what an option is
//! called, which properties it has, and which groups options fall into.

use crate::scanner::{is_byte, scan_to, COLON};
use crate::text::bytes_eq;
use vstd::prelude::*;
use vstd::slice::slice_subrange;
use vstd::string::StringSliceAdditionalSpecFns;

verus! {

/// A set of option properties, one bit each.
#[derive(Debug, Clone, Copy, PartialEq, Eq, Structural)]
pub struct OptionFlag {
    pub bits: u64,
}

impl OptionFlag {
    /// No property.
    pub const NONE: u64 = 0x0000;

    /// The option takes an argument.
    pub const HAS_ARG: u64 = 0x0001;

    /// The option is a switch.
    pub const OPT_BOOL: u64 = 0x0002;

    /// The option is for experts.
    pub const OPT_EXPERT: u64 = 0x0004;

    /// The argument is a string.
    pub const OPT_STRING: u64 = 0x0008;

    /// The option is about video.
    pub const OPT_VIDEO: u64 = 0x0010;

    /// The option is about audio.
    pub const OPT_AUDIO: u64 = 0x0020;

    /// The argument is an integer.
    pub const OPT_INT: u64 = 0x0080;

    /// The argument is a number with a fraction.
    pub const OPT_FLOAT: u64 = 0x0100;

    /// The option is about subtitles.
    pub const OPT_SUBTITLE: u64 = 0x0200;

    /// The argument is a 64-bit integer.
    pub const OPT_INT64: u64 = 0x0400;

    /// The program ends once the option is handled.
    pub const OPT_EXIT: u64 = 0x0800;

    /// The option is about data streams.
    pub const OPT_DATA: u64 = 0x1000;

    /// The option belongs to one file, and is not global.
    pub const OPT_PERFILE: u64 = 0x2000;

    /// The value is kept at an offset in the options of a file.
    pub const OPT_OFFSET: u64 = 0x4000;

    /// The option may name the streams it is for.
    pub const OPT_SPEC: u64 = 0x8000;

    /// The argument is a time.
    pub const OPT_TIME: u64 = 0x10000;

    /// The argument is a number with a fraction, in double precision.
    pub const OPT_DOUBLE: u64 = 0x20000;

    /// The option may stand with an input file.
    pub const OPT_INPUT: u64 = 0x40000;

    /// The option may stand with an output file.
    pub const OPT_OUTPUT: u64 = 0x80000;

    /// The bits of the set.
    pub open spec fn view(self) -> u64 {
        self.bits
    }

    /// The set with the bits `bits`.
    pub fn from_bits(bits: u64) -> (set: OptionFlag)
        ensures
            set@ == bits,
    {
        OptionFlag { bits }
    }

    /// The bits of the set.
    pub fn bits(self) -> (bits: u64)
        ensures
            bits == self@,
    {
        self.bits
    }

    /// Whether the set holds no property.
    pub fn is_empty(self) -> (empty: bool)
        ensures
            empty == (self@ == 0),
    {
        self.bits == 0
    }

    /// Whether the set holds every property of `other`.
    pub fn contains(self, other: OptionFlag) -> (all: bool)
        ensures
            all == (self@ & other@ == other@),
    {
        self.bits & other.bits == other.bits
    }

    /// Whether the set holds some property of `other`.
    pub fn intersects(self, other: OptionFlag) -> (some: bool)
        ensures
            some == (self@ & other@ != 0),
    {
        self.bits & other.bits != 0
    }

    /// The properties of both sets.
    pub fn union(self, other: OptionFlag) -> (both: OptionFlag)
        ensures
            both@ == self@ | other@,
    {
        OptionFlag { bits: self.bits | other.bits }
    }
}

impl Default for OptionFlag {
    fn default() -> (set: OptionFlag)
        ensures
            set@ == 0,
    {
        OptionFlag { bits: 0 }
    }
}

/// One command-line option.  `U` is what carrying out the option needs;
/// nothing here looks into it.
#[derive(Debug)]
pub struct OptionDef<'a, U> {
    /// The name, without the leading `-`.
    pub name: &'a str,
    /// What the option does, in a few words.
    pub help: &'a str,
    /// What to call the argument in a help text.
    pub argname: Option<&'a str>,
    /// The properties of the option.
    pub flags: OptionFlag,
    /// How the option is carried out.
    pub u: U,
}

/// A kind of option group, such as the options of an output file.
#[derive(Debug)]
pub struct OptionGroupDef<'global> {
    /// The name of the kind.
    pub name: &'global str,
    /// The option that ends a group of this kind; `None` where a bare
    /// argument ends it.
    pub sep: Option<&'global str>,
    /// The properties one of which an option of such a group must have; no
    /// property if any option may stand there.
    pub flags: OptionFlag,
}

/// The name of an option as it is written: what stands before the first
/// `:`, or everything where there is no `:`.
pub open spec fn option_key(written: Seq<u8>) -> Seq<u8> {
    written.subrange(0, scan_to(written, 0, is_byte(COLON)))
}

/// The first position from `from` on at which `options` holds an option
/// called `key`; the length of `options` if there is none.
pub open spec fn first_named<U>(options: Seq<OptionDef<U>>, key: Seq<u8>, from: int) -> int
    decreases options.len() - from,
{
    if 0 <= from < options.len() && options[from].name.spec_bytes() != key {
        first_named(options, key, from + 1)
    } else {
        from
    }
}

/// The first position from `from` on at which `groups` holds a kind of
/// group that `opt` ends; the length of `groups` if there is none.
pub open spec fn first_ended_by(groups: Seq<OptionGroupDef>, opt: Seq<u8>, from: int) -> int
    decreases groups.len() - from,
{
    if 0 <= from < groups.len() && !(groups[from].sep matches Some(sep) && sep.spec_bytes()
        == opt) {
        first_ended_by(groups, opt, from + 1)
    } else {
        from
    }
}

/// `first_named` stays between its start and the end of the options.
pub proof fn lemma_first_named_bounds<U>(options: Seq<OptionDef<U>>, key: Seq<u8>, from: int)
    requires
        0 <= from <= options.len(),
    ensures
        from <= first_named(options, key, from) <= options.len(),
    decreases options.len() - from,
{
    if from < options.len() && options[from].name.spec_bytes() != key {
        lemma_first_named_bounds(options, key, from + 1);
    }
}

/// `first_ended_by` stays between its start and the end of the groups.
pub proof fn lemma_first_ended_by_bounds(groups: Seq<OptionGroupDef>, opt: Seq<u8>, from: int)
    requires
        0 <= from <= groups.len(),
    ensures
        from <= first_ended_by(groups, opt, from) <= groups.len(),
    decreases groups.len() - from,
{
    if from < groups.len() && !(groups[from].sep matches Some(sep) && sep.spec_bytes() == opt) {
        lemma_first_ended_by_bounds(groups, opt, from + 1);
    }
}

/// The first option of `options` that is called as `written` is, up to the
/// first `:` of `written`.
pub fn option_named<'global, U>(
    options: &'global [OptionDef<'global, U>],
    written: &[u8],
) -> (found: Option<&'global OptionDef<'global, U>>)
    ensures
        match found {
            Some(option) => {
                let at = first_named(options@, option_key(written@), 0);
                0 <= at < options@.len() && *option == options@[at]
            },
            None => first_named(options@, option_key(written@), 0) >= options@.len(),
        },
{
    let mut end: usize = 0;
    while end < written.len() && written[end] != COLON
        invariant
            end <= written@.len(),
            scan_to(written@, 0, is_byte(COLON)) == scan_to(written@, end as int, is_byte(COLON)),
        decreases written@.len() - end,
    {
        end = end + 1;
    }
    let key = slice_subrange(written, 0, end);
    let mut at: usize = 0;
    while at < options.len()
        invariant
            at <= options@.len(),
            key@ == option_key(written@),
            first_named(options@, key@, 0) == first_named(options@, key@, at as int),
        decreases options@.len() - at,
    {
        if bytes_eq(options[at].name.as_bytes(), key) {
            return Some(&options[at]);
        }
        at = at + 1;
    }
    None
}

/// The first option of `options` that is called as `name` is, up to the
/// first `:` of `name`.
pub fn find_option<'global, U>(options: &'global [OptionDef<'global, U>], name: &str) -> (found:
    Option<&'global OptionDef<'global, U>>)
    ensures
        match found {
            Some(option) => {
                let at = first_named(options@, option_key(name.spec_bytes()), 0);
                0 <= at < options@.len() && *option == options@[at]
            },
            None => first_named(options@, option_key(name.spec_bytes()), 0) >= options@.len(),
        },
{
    option_named(options, name.as_bytes())
}

/// The position in `groups` of the first kind of group that the option
/// `opt` ends.
pub fn group_ended_by(groups: &[OptionGroupDef], opt: &[u8]) -> (found: Option<usize>)
    ensures
        match found {
            Some(at) => at < groups@.len() && at == first_ended_by(groups@, opt@, 0),
            None => first_ended_by(groups@, opt@, 0) >= groups@.len(),
        },
{
    let mut at: usize = 0;
    while at < groups.len()
        invariant
            at <= groups@.len(),
            first_ended_by(groups@, opt@, 0) == first_ended_by(groups@, opt@, at as int),
        decreases groups@.len() - at,
    {
        let ends = match groups[at].sep {
            Some(sep) => bytes_eq(sep.as_bytes(), opt),
            None => false,
        };
        if ends {
            return Some(at);
        }
        at = at + 1;
    }
    None
}

/// The position in `groups` of the first kind of group that the option
/// `opt` ends.
pub fn match_group_separator(groups: &[OptionGroupDef], opt: &str) -> (found: Option<usize>)
    ensures
        match found {
            Some(at) => at < groups@.len() && at == first_ended_by(groups@, opt.spec_bytes(), 0),
            None => first_ended_by(groups@, opt.spec_bytes(), 0) >= groups@.len(),
        },
{
    group_ended_by(groups, opt.as_bytes())
}

/// The kind of value that carrying out an option stores.
#[derive(Debug, Clone, Copy, PartialEq, Eq, Structural)]
pub enum ValueKind {
    /// The argument as it is written.
    String,
    /// The argument as an integer of the machine's word size.
    Int,
    /// The argument as a 64-bit integer.
    Int64,
    /// The argument as a time.
    Time,
    /// The argument as a number in single precision.
    Float,
    /// The argument as a number in double precision.
    Double,
    /// Nothing is stored: a function of the option is called.
    Call,
}

/// The kind of value that an option with the properties `flags` stores:
/// the first of string, integer, 64-bit integer, time, single and double
/// precision that `flags` names, and a call if it names none.
pub open spec fn value_kind_of(flags: u64) -> ValueKind {
    if flags & OptionFlag::OPT_STRING == OptionFlag::OPT_STRING {
        ValueKind::String
    } else if flags & OptionFlag::OPT_INT != 0 {
        ValueKind::Int
    } else if flags & OptionFlag::OPT_INT64 == OptionFlag::OPT_INT64 {
        ValueKind::Int64
    } else if flags & OptionFlag::OPT_TIME == OptionFlag::OPT_TIME {
        ValueKind::Time
    } else if flags & OptionFlag::OPT_FLOAT == OptionFlag::OPT_FLOAT {
        ValueKind::Float
    } else if flags & OptionFlag::OPT_DOUBLE == OptionFlag::OPT_DOUBLE {
        ValueKind::Double
    } else {
        ValueKind::Call
    }
}

/// The stream specifier of an option as it is written: what stands behind
/// the first `:`, and nothing where there is no `:`.
pub open spec fn specifier_of(written: Seq<u8>) -> Seq<u8> {
    let colon = scan_to(written, 0, is_byte(COLON));
    if colon < written.len() {
        written.subrange(colon + 1, written.len() as int)
    } else {
        Seq::empty()
    }
}

impl OptionFlag {
    /// The kind of value that an option with these properties stores.
    pub fn value_kind(self) -> (kind: ValueKind)
        ensures
            kind == value_kind_of(self@),
    {
        if self.contains(OptionFlag::from_bits(OptionFlag::OPT_STRING)) {
            ValueKind::String
        } else if self.intersects(OptionFlag::from_bits(OptionFlag::OPT_INT)) {
            ValueKind::Int
        } else if self.contains(OptionFlag::from_bits(OptionFlag::OPT_INT64)) {
            ValueKind::Int64
        } else if self.contains(OptionFlag::from_bits(OptionFlag::OPT_TIME)) {
            ValueKind::Time
        } else if self.contains(OptionFlag::from_bits(OptionFlag::OPT_FLOAT)) {
            ValueKind::Float
        } else if self.contains(OptionFlag::from_bits(OptionFlag::OPT_DOUBLE)) {
            ValueKind::Double
        } else {
            ValueKind::Call
        }
    }

    /// Whether an option with these properties stores its value in the
    /// options of a file: it does if the value is kept at an offset there,
    /// or if the option may name the streams it is for.
    pub fn needs_context(self) -> (needs: bool)
        ensures
            needs == (self@ & (OptionFlag::OPT_OFFSET | OptionFlag::OPT_SPEC) != 0),
    {
        self.intersects(OptionFlag::from_bits(OptionFlag::OPT_OFFSET | OptionFlag::OPT_SPEC))
    }
}

/// The stream specifier in `written`: what stands behind its first `:`.
pub fn specifier<'a>(written: &'a [u8]) -> (s: &'a [u8])
    ensures
        s@ == specifier_of(written@),
{
    let mut colon: usize = 0;
    while colon < written.len() && written[colon] != COLON
        invariant
            colon <= written@.len(),
            scan_to(written@, 0, is_byte(COLON)) == scan_to(written@, colon as int, is_byte(COLON)),
        decreases written@.len() - colon,
    {
        colon = colon + 1;
    }
    if colon < written.len() {
        slice_subrange(written, colon + 1, written.len())
    } else {
        slice_subrange(written, 0, 0)
    }
}

} // verus!
