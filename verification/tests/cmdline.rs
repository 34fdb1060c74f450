use filtergraph::cmdline::{
    add_opt, apply_default, finish_group, init_parse_context, opt_default, parse_optgroup,
    Lookup, OptGroupError, OptionClass, OptionGroup, OptionParseContext,
};
use filtergraph::options::{OptionDef, OptionFlag, OptionGroupDef};
use filtergraph::split::{split_commandline, ArgOperation, SplitError};

static GROUPS: [OptionGroupDef<'static>; 2] = [
    OptionGroupDef { name: "output url", sep: None, flags: OptionFlag { bits: OptionFlag::OPT_OUTPUT } },
    OptionGroupDef { name: "input url", sep: Some("i"), flags: OptionFlag { bits: OptionFlag::OPT_INPUT } },
];

static OPTIONS: [OptionDef<'static, u32>; 7] = [
    OptionDef { name: "h", help: "show help", argname: Some("topic"), flags: OptionFlag { bits: OptionFlag::OPT_EXIT }, u: 0 },
    OptionDef { name: "y", help: "overwrite output files", argname: None, flags: OptionFlag { bits: OptionFlag::OPT_BOOL }, u: 1 },
    OptionDef {
        name: "f",
        help: "force format",
        argname: Some("fmt"),
        flags: OptionFlag {
            bits: OptionFlag::HAS_ARG | OptionFlag::OPT_STRING | OptionFlag::OPT_OFFSET | OptionFlag::OPT_INPUT | OptionFlag::OPT_OUTPUT,
        },
        u: 2,
    },
    OptionDef {
        name: "c",
        help: "codec name",
        argname: Some("codec"),
        flags: OptionFlag {
            bits: OptionFlag::HAS_ARG | OptionFlag::OPT_STRING | OptionFlag::OPT_SPEC | OptionFlag::OPT_INPUT | OptionFlag::OPT_OUTPUT,
        },
        u: 3,
    },
    OptionDef {
        name: "vf",
        help: "set video filters",
        argname: Some("filter_graph"),
        flags: OptionFlag { bits: OptionFlag::OPT_VIDEO | OptionFlag::HAS_ARG | OptionFlag::OPT_PERFILE | OptionFlag::OPT_OUTPUT },
        u: 4,
    },
    OptionDef {
        name: "re",
        help: "read input at native frame rate",
        argname: None,
        flags: OptionFlag { bits: OptionFlag::OPT_BOOL | OptionFlag::OPT_EXPERT | OptionFlag::OPT_OFFSET | OptionFlag::OPT_INPUT },
        u: 5,
    },
    OptionDef { name: "stats", help: "print progress report", argname: None, flags: OptionFlag { bits: OptionFlag::OPT_BOOL | OptionFlag::OPT_EXPERT }, u: 6 },
];

/// A library with the codec options `b` and `flags` and the format option
/// `fflags`; `flags` and `fflags` are sets of flags.
fn library(class: OptionClass, name: &[u8], children: bool) -> Lookup {
    match (class, name, children) {
        (OptionClass::Codec, b"b", _) => Lookup::Found { flags_type: false },
        (OptionClass::Codec, b"flags", _) => Lookup::Found { flags_type: true },
        (OptionClass::Format, b"fflags", true) => Lookup::Found { flags_type: true },
        (OptionClass::Format, b"b", true) => Lookup::Found { flags_type: false },
        _ => Lookup::Absent,
    }
}

fn args(line: &[&str]) -> Vec<String> {
    line.iter().map(|a| a.to_string()).collect()
}

fn split(
    line: &[&str],
) -> (OptionParseContext<'static, u32>, Option<String>, Result<Vec<ArgOperation>, SplitError>) {
    let mut octx = init_parse_context(&GROUPS);
    let mut filtergraph = None;
    let res = split_commandline(&mut octx, &args(line), &OPTIONS, &GROUPS, &mut filtergraph, &library);
    (octx, filtergraph, res)
}

fn keys(group: &OptionGroup<u32>) -> Vec<(u32, String, String)> {
    group
        .opts
        .iter()
        .map(|kv| {
            (
                kv.opt.u,
                String::from_utf8(kv.key.clone()).unwrap(),
                String::from_utf8(kv.val.clone()).unwrap(),
            )
        })
        .collect()
}

fn kv(u: u32, key: &str, val: &str) -> (u32, String, String) {
    (u, key.to_string(), val.to_string())
}

fn shown(operations: &[ArgOperation]) -> Vec<String> {
    let text = |b: &Vec<u8>| String::from_utf8(b.clone()).unwrap();
    operations
        .iter()
        .map(|op| match op {
            ArgOperation::AddOpt(opt, arg) => format!("add {} {}", text(opt), text(arg)),
            ArgOperation::FinishGroup(group, arg) => format!("finish {} {}", group, text(arg)),
            ArgOperation::OptDefault(opt, arg) => format!("default {} {}", text(opt), text(arg)),
        })
        .collect()
}

#[test]
fn context_begins_empty() {
    let octx: OptionParseContext<u32> = init_parse_context(&GROUPS);
    assert_eq!(octx.groups.len(), 2);
    assert_eq!(octx.groups[0].group_def.name, "output url");
    assert_eq!(octx.groups[1].group_def.sep, Some("i"));
    assert!(octx.groups[0].groups.is_empty());
    assert!(octx.groups[1].groups.is_empty());
    assert_eq!(octx.global_opts.group_def.name, "global");
    assert_eq!(octx.cur_group.group_def.name, "never_used");
    assert!(octx.global_opts.opts.is_empty());
    assert!(octx.cur_group.opts.is_empty());
    assert!(octx.cur_group.sws_dict.is_empty());
    let global: OptionGroup<u32> = OptionGroup::new_global();
    assert_eq!(global.group_def.sep, None);
    assert!(global.group_def.flags.is_empty());
    let anonymous: OptionGroup<u32> = OptionGroup::new_anonymous();
    assert!(anonymous.arg.is_empty());
}

#[test]
fn options_go_to_the_global_or_to_the_waiting_group() {
    let mut octx = init_parse_context(&GROUPS);
    add_opt(&mut octx, &OPTIONS[1], b"y", b"1");
    add_opt(&mut octx, &OPTIONS[2], b"f", b"mp4");
    add_opt(&mut octx, &OPTIONS[3], b"c:v", b"copy");
    add_opt(&mut octx, &OPTIONS[4], b"vf", b"scale");
    assert_eq!(keys(&octx.global_opts), vec![kv(1, "y", "1")]);
    assert_eq!(
        keys(&octx.cur_group),
        vec![kv(2, "f", "mp4"), kv(3, "c:v", "copy"), kv(4, "vf", "scale")]
    );
}

#[test]
fn finished_group_takes_the_waiting_options() {
    let mut octx = init_parse_context(&GROUPS);
    add_opt(&mut octx, &OPTIONS[2], b"f", b"mp4");
    apply_default(&mut octx.cur_group, b"b", b"1M", Lookup::Found { flags_type: false }, Lookup::Absent);
    finish_group(&mut octx, 1, b"in.mp4");
    assert!(octx.groups[0].groups.is_empty());
    assert_eq!(octx.groups[1].groups.len(), 1);
    let done = &octx.groups[1].groups[0];
    assert_eq!(done.arg, b"in.mp4");
    assert_eq!(done.group_def.name, "input url");
    assert_eq!(keys(done), vec![kv(2, "f", "mp4")]);
    assert_eq!(done.codec_opts.len(), 1);
    assert!(done.sws_dict.is_empty());
    assert!(octx.cur_group.opts.is_empty());
    assert!(octx.cur_group.codec_opts.is_empty());
    assert_eq!(octx.cur_group.sws_dict.len(), 1);
    assert_eq!(octx.cur_group.sws_dict[0].key, b"flags");
    assert_eq!(octx.cur_group.sws_dict[0].value, b"bicubic");
    assert!(!octx.cur_group.sws_dict[0].append);
    finish_group(&mut octx, 1, b"second.mp4");
    assert_eq!(octx.groups[1].groups.len(), 2);
    assert_eq!(octx.groups[1].groups[1].sws_dict.len(), 1);
}

#[test]
fn library_options_are_noted_for_codecs_and_formats() {
    let mut group: OptionGroup<u32> = OptionGroup::new_anonymous();
    assert!(opt_default(&mut group, b"b:v", b"1M", &library));
    assert!(opt_default(&mut group, b"flags", b"+global_header", &library));
    assert!(opt_default(&mut group, b"flags", b"global_header", &library));
    assert!(opt_default(&mut group, b"fflags", b"-nobuffer", &library));
    assert!(opt_default(&mut group, b"vb", b"2M", &library));
    assert!(opt_default(&mut group, b"b", b"-1", &library));
    assert!(!opt_default(&mut group, b"xb", b"2M", &library));
    assert!(!opt_default(&mut group, b"", b"2M", &library));
    let seen = |sets: &Vec<filtergraph::cmdline::DictSet>| -> Vec<(String, String, bool)> {
        sets.iter()
            .map(|s| {
                (
                    String::from_utf8(s.key.clone()).unwrap(),
                    String::from_utf8(s.value.clone()).unwrap(),
                    s.append,
                )
            })
            .collect()
    };
    let entry = |k: &str, v: &str, a: bool| (k.to_string(), v.to_string(), a);
    assert_eq!(
        seen(&group.codec_opts),
        vec![
            entry("b:v", "1M", false),
            entry("flags", "+global_header", true),
            entry("flags", "global_header", false),
            entry("vb", "2M", false),
            entry("b", "-1", false),
        ]
    );
    assert_eq!(
        seen(&group.format_opts),
        vec![entry("fflags", "-nobuffer", true), entry("b", "-1", false)]
    );
}

#[test]
fn splitting_a_command_line() {
    let (octx, filtergraph, res) = split(&[
        "ffmpeg", "-y", "-f", "lavfi", "-i", "in.mp4", "-c:v", "copy", "-b", "1M", "-vf",
        "scale=1:2", "out.mp4",
    ]);
    assert_eq!(
        shown(&res.unwrap()),
        vec![
            "add y 1",
            "add f lavfi",
            "finish 1 in.mp4",
            "add c:v copy",
            "default b 1M",
            "add vf scale=1:2",
            "finish 0 out.mp4",
        ]
    );
    assert_eq!(filtergraph.as_deref(), Some("scale=1:2"));
    assert_eq!(keys(&octx.global_opts), vec![kv(1, "y", "1")]);
    assert_eq!(octx.groups[1].groups.len(), 1);
    assert_eq!(keys(&octx.groups[1].groups[0]), vec![kv(2, "f", "lavfi")]);
    assert_eq!(octx.groups[1].groups[0].arg, b"in.mp4");
    assert_eq!(octx.groups[0].groups.len(), 1);
    let out = &octx.groups[0].groups[0];
    assert_eq!(out.arg, b"out.mp4");
    assert_eq!(keys(out), vec![kv(3, "c:v", "copy"), kv(4, "vf", "scale=1:2")]);
    assert_eq!(out.codec_opts.len(), 1);
    assert_eq!(out.format_opts.len(), 1);
    assert_eq!(out.sws_dict.len(), 1);
    assert!(octx.cur_group.opts.is_empty());
}

#[test]
fn bare_arguments_and_dashes_end_output_groups() {
    let (octx, _, res) = split(&["ffmpeg", "a", "-", "--", "-y", "--", "--", "b"]);
    assert_eq!(
        shown(&res.unwrap()),
        vec!["finish 0 a", "finish 0 -", "finish 0 -y", "finish 0 b"]
    );
    assert_eq!(octx.groups[0].groups.len(), 4);
    assert!(octx.global_opts.opts.is_empty());
}

#[test]
fn the_name_of_the_program_is_skipped() {
    let (octx, filtergraph, res) = split(&["-y"]);
    assert!(res.unwrap().is_empty());
    assert!(octx.global_opts.opts.is_empty());
    assert_eq!(filtergraph, None);
    let (_, _, res) = split(&[]);
    assert!(res.unwrap().is_empty());
}

#[test]
fn negated_switches() {
    let (octx, _, res) = split(&["ffmpeg", "-noy", "-nore", "-nostats"]);
    assert_eq!(shown(&res.unwrap()), vec!["add y noy", "add re nore", "add stats nostats"]);
    assert_eq!(keys(&octx.global_opts), vec![kv(1, "noy", "0"), kv(6, "nostats", "0")]);
    assert_eq!(keys(&octx.cur_group), vec![kv(5, "nore", "0")]);
    // `f` is no switch.
    let (_, _, res) = split(&["ffmpeg", "-nof"]);
    match res {
        Err(SplitError::UnrecognizedOption { opt }) => assert_eq!(opt, b"nof"),
        other => panic!("{:?}", other),
    }
}

#[test]
fn options_that_end_the_program_take_an_argument_if_there_is_one() {
    let (octx, _, res) = split(&["ffmpeg", "-h", "full", "-h"]);
    assert_eq!(shown(&res.unwrap()), vec!["add h full", "add h "]);
    assert_eq!(keys(&octx.global_opts), vec![kv(0, "h", "full"), kv(0, "h", "")]);
}

#[test]
fn missing_arguments_are_refused() {
    let (octx, _, res) = split(&["ffmpeg", "-y", "-i"]);
    match res {
        Err(SplitError::MissingArgument { opt }) => assert_eq!(opt, b"i"),
        other => panic!("{:?}", other),
    }
    assert_eq!(keys(&octx.global_opts), vec![kv(1, "y", "1")]);
    let (_, _, res) = split(&["ffmpeg", "-f"]);
    assert!(matches!(res, Err(SplitError::MissingArgument { .. })));
}

#[test]
fn unknown_options_are_refused() {
    let (_, _, res) = split(&["ffmpeg", "-bogus", "1"]);
    match res {
        Err(SplitError::UnrecognizedOption { opt }) => assert_eq!(opt, b"bogus"),
        other => panic!("{:?}", other),
    }
    // A library option without an argument is not looked up.
    let (_, _, res) = split(&["ffmpeg", "-b"]);
    assert!(matches!(res, Err(SplitError::UnrecognizedOption { .. })));
}

#[test]
fn groups_check_where_their_options_may_stand() {
    let written = std::cell::RefCell::new(Vec::new());
    let write = |opt: &OptionDef<'static, u32>, key: &[u8], val: &[u8]| {
        written.borrow_mut().push((opt.u, key.to_vec(), val.to_vec()));
        val != b"bad"
    };
    let (octx, _, res) = split(&["ffmpeg", "-f", "x", "-c", "y", "out", "-re", "-f", "bad", "-f", "z", "-i", "in"]);
    res.unwrap();
    assert_eq!(parse_optgroup(&octx.groups[0].groups[0], &write), Ok(()));
    assert_eq!(
        *written.borrow(),
        vec![(2, b"f".to_vec(), b"x".to_vec()), (3, b"c".to_vec(), b"y".to_vec())]
    );
    written.borrow_mut().clear();
    assert_eq!(
        parse_optgroup(&octx.groups[1].groups[0], &write),
        Err(OptGroupError::Failed { index: 1 })
    );
    assert_eq!(written.borrow().len(), 2);
    // An option for input files in the group of an output file.
    let (octx, _, res) = split(&["ffmpeg", "-f", "x", "-re", "-c", "y", "out"]);
    res.unwrap();
    written.borrow_mut().clear();
    assert_eq!(
        parse_optgroup(&octx.groups[0].groups[0], &write),
        Err(OptGroupError::Misplaced { index: 1 })
    );
    assert_eq!(written.borrow().len(), 1);
    // The global group asks for no property.
    assert_eq!(parse_optgroup(&octx.global_opts, &write), Ok(()));
}
