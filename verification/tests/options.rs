use filtergraph::options::{
    find_option, match_group_separator, specifier, OptionDef, OptionFlag, OptionGroupDef,
    ValueKind,
};

fn opt_cpuflags(_: &str, _: &str) -> i64 {
    0
}

#[test]
fn option_def_macro() {
    let opt = OptionDef {
        name: "cpuflags",
        help: "force specific cpu flags",
        argname: Some("flags"),
        flags: OptionFlag::from_bits(OptionFlag::HAS_ARG | OptionFlag::OPT_EXPERT),
        u: opt_cpuflags as fn(&str, &str) -> i64,
    };
    // We cannot confirm the address of function pointer though.
    assert_eq!(opt.name, "cpuflags");
    assert_eq!(
        opt.flags,
        OptionFlag::from_bits(OptionFlag::HAS_ARG | OptionFlag::OPT_EXPERT)
    );
    assert_eq!(opt.help, "force specific cpu flags");
    assert_eq!(opt.argname, Some("flags"));
}

fn table() -> Vec<OptionDef<'static, u32>> {
    let def = |name: &'static str, flags: u64, u: u32| OptionDef {
        name,
        help: "",
        argname: None,
        flags: OptionFlag::from_bits(flags),
        u,
    };
    vec![
        def("f", OptionFlag::HAS_ARG | OptionFlag::OPT_STRING | OptionFlag::OPT_OFFSET, 0),
        def("y", OptionFlag::OPT_BOOL, 1),
        def("c", OptionFlag::HAS_ARG | OptionFlag::OPT_STRING | OptionFlag::OPT_SPEC, 2),
        def("y", OptionFlag::NONE, 3),
    ]
}

#[test]
fn find_option_takes_the_first_of_that_name() {
    let options = table();
    assert_eq!(find_option(&options, "y").unwrap().u, 1);
    assert_eq!(find_option(&options, "c").unwrap().u, 2);
    assert!(find_option(&options, "x").is_none());
    assert!(find_option(&options, "").is_none());
}

#[test]
fn find_option_ignores_the_stream_specifier() {
    let options = table();
    assert_eq!(find_option(&options, "c:v:0").unwrap().u, 2);
    assert_eq!(find_option(&options, "c:").unwrap().u, 2);
    assert!(find_option(&options, ":c").is_none());
}

#[test]
fn group_separators() {
    let groups = [
        OptionGroupDef { name: "output url", sep: None, flags: OptionFlag::from_bits(OptionFlag::OPT_OUTPUT) },
        OptionGroupDef { name: "input url", sep: Some("i"), flags: OptionFlag::from_bits(OptionFlag::OPT_INPUT) },
        OptionGroupDef { name: "again", sep: Some("i"), flags: OptionFlag::from_bits(OptionFlag::NONE) },
    ];
    assert_eq!(match_group_separator(&groups, "i"), Some(1));
    assert_eq!(match_group_separator(&groups, "o"), None);
    assert_eq!(match_group_separator(&groups, ""), None);
    assert_eq!(match_group_separator(&groups[..1], "i"), None);
}

#[test]
fn flag_sets() {
    let both = OptionFlag::from_bits(OptionFlag::HAS_ARG | OptionFlag::OPT_EXPERT);
    let one = OptionFlag::from_bits(OptionFlag::OPT_EXPERT);
    let other = OptionFlag::from_bits(OptionFlag::OPT_VIDEO);
    assert_eq!(both.bits(), 5);
    assert!(both.contains(one));
    assert!(!one.contains(both));
    assert!(both.intersects(one));
    assert!(!both.intersects(other));
    assert!(both.contains(OptionFlag::default()));
    assert!(!both.intersects(OptionFlag::default()));
    assert!(OptionFlag::default().is_empty());
    assert!(!one.is_empty());
    assert_eq!(one.union(other).bits(), 0x14);
    assert_eq!(OptionFlag::OPT_OUTPUT, 0x80000);
}

#[test]
fn value_kinds() {
    let kind = |bits: u64| OptionFlag::from_bits(bits).value_kind();
    assert_eq!(kind(OptionFlag::HAS_ARG | OptionFlag::OPT_STRING | OptionFlag::OPT_INT), ValueKind::String);
    assert_eq!(kind(OptionFlag::OPT_INT | OptionFlag::OPT_INT64), ValueKind::Int);
    assert_eq!(kind(OptionFlag::OPT_INT64 | OptionFlag::OPT_TIME), ValueKind::Int64);
    assert_eq!(kind(OptionFlag::OPT_TIME | OptionFlag::OPT_FLOAT), ValueKind::Time);
    assert_eq!(kind(OptionFlag::OPT_FLOAT | OptionFlag::OPT_DOUBLE), ValueKind::Float);
    assert_eq!(kind(OptionFlag::OPT_DOUBLE), ValueKind::Double);
    assert_eq!(kind(OptionFlag::HAS_ARG | OptionFlag::OPT_EXPERT), ValueKind::Call);
    assert!(OptionFlag::from_bits(OptionFlag::OPT_SPEC).needs_context());
    assert!(OptionFlag::from_bits(OptionFlag::OPT_OFFSET).needs_context());
    assert!(!OptionFlag::from_bits(OptionFlag::OPT_PERFILE).needs_context());
}

#[test]
fn stream_specifiers() {
    assert_eq!(specifier(b"c:v:0"), b"v:0");
    assert_eq!(specifier(b"c:"), b"");
    assert_eq!(specifier(b"c"), b"");
    assert_eq!(specifier(b""), b"");
}

fn show_help(_: &str, _: &str) -> i64 {
    0
}

#[test]
fn option_operation_macro() {
    // Test whether it compiles.
    let opt = OptionDef {
        name: "h",
        help: "show help",
        argname: Some("topic"),
        flags: OptionFlag::from_bits(OptionFlag::OPT_EXIT),
        u: show_help as fn(&str, &str) -> i64,
    };
    assert_eq!((opt.u)("h", ""), 0);
}
