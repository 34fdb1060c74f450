use filtergraph::filter::{filter_request, instantiate};
use filtergraph::graph::{
    FilterContext, FilterGraph, FilterInOut, FilterLink, ParseError, ParsedGraph, RegistryAnswer,
};
use filtergraph::parse::avfilter_graph_parse2;
use filtergraph::scanner::GraphParser;
use filtergraph::text::{bytes_eq, contains, push_bytes, push_decimal, trim};

/// A registry that knows a few filters, and counts the pads of `split` and
/// `hstack` from their arguments.
fn known_filters(filt_name: &[u8], _inst_name: &[u8], args: &[u8]) -> RegistryAnswer {
    let pads = |inputs: u32, outputs: u32| RegistryAnswer::Pads { inputs, outputs };
    match filt_name {
        b"split" => match args {
            b"" => pads(1, 2),
            b"3" => pads(1, 3),
            _ => RegistryAnswer::Rejected,
        },
        b"scale" | b"setpts" | b"null" | b"hflip" => pads(1, 1),
        b"overlay" => pads(2, 1),
        b"hstack" => match args {
            b"inputs=3" => pads(3, 1),
            _ => pads(2, 1),
        },
        b"testsrc" => pads(0, 1),
        b"nullsink" => pads(1, 0),
        _ => RegistryAnswer::Unknown,
    }
}

fn parse(text: &str) -> Result<ParsedGraph<'_>, ParseError> {
    avfilter_graph_parse2(text, &known_filters)
}

fn link(from_filter: usize, from_pad_idx: usize, to_filter: usize, to_pad_idx: usize) -> [usize; 4] {
    [from_filter, from_pad_idx, to_filter, to_pad_idx]
}

fn links_of(graph: &ParsedGraph) -> Vec<[usize; 4]> {
    graph
        .links
        .iter()
        .map(|l: &FilterLink| [l.from_filter, l.from_pad_idx, l.to_filter, l.to_pad_idx])
        .collect()
}

fn pads_of(pads: &[FilterInOut]) -> Vec<(Option<Vec<u8>>, Option<usize>, usize)> {
    pads.iter()
        .map(|p| (p.name.map(|n| n.to_vec()), p.filter_ctx, p.pad_idx))
        .collect()
}

fn pad(name: Option<&str>, owner: usize, pad_idx: usize) -> (Option<Vec<u8>>, Option<usize>, usize) {
    (name.map(|n| n.as_bytes().to_vec()), Some(owner), pad_idx)
}

/// Every pad of every filter occurs exactly once, and nothing else occurs.
fn assert_accounted(graph: &ParsedGraph) {
    for (f, filter) in graph.filters.iter().enumerate() {
        assert_eq!(filter.index, f);
        for p in 0..filter.nb_inputs {
            let linked = graph
                .links
                .iter()
                .filter(|l| l.to_filter == f && l.to_pad_idx == p)
                .count();
            let open = graph
                .open_inputs
                .iter()
                .filter(|i| i.filter_ctx == Some(f) && i.pad_idx == p)
                .count();
            assert_eq!(linked + open, 1);
        }
        for p in 0..filter.nb_outputs {
            let linked = graph
                .links
                .iter()
                .filter(|l| l.from_filter == f && l.from_pad_idx == p)
                .count();
            let open = graph
                .open_outputs
                .iter()
                .filter(|o| o.filter_ctx == Some(f) && o.pad_idx == p)
                .count();
            assert_eq!(linked + open, 1);
        }
    }
    let inputs: usize = graph.filters.iter().map(|f| f.nb_inputs).sum();
    let outputs: usize = graph.filters.iter().map(|f| f.nb_outputs).sum();
    assert_eq!(graph.links.len() + graph.open_inputs.len(), inputs);
    assert_eq!(graph.links.len() + graph.open_outputs.len(), outputs);
}

#[test]
fn split_with_two_labelled_outputs() {
    let graph = parse("split[main][tmp]").unwrap();
    assert_eq!(graph.filters.len(), 1);
    assert_eq!(graph.filters[0].filt_name, b"split");
    assert_eq!(graph.filters[0].nb_inputs, 1);
    assert_eq!(graph.filters[0].nb_outputs, 2);
    assert!(graph.links.is_empty());
    assert_eq!(pads_of(&graph.open_inputs), vec![pad(None, 0, 0)]);
    assert_eq!(
        pads_of(&graph.open_outputs),
        vec![pad(Some("main"), 0, 0), pad(Some("tmp"), 0, 1)]
    );
    assert_accounted(&graph);
}

#[test]
fn label_links_scale_to_overlay() {
    let graph = parse("[0:v]scale=640:480[a];[a][1:v]overlay=0:0[out]").unwrap();
    assert_eq!(graph.filters.len(), 2);
    assert_eq!(graph.filters[0].filt_name, b"scale");
    assert_eq!(graph.filters[0].index, 0);
    assert_eq!(graph.filters[0].args, b"640:480");
    assert_eq!(graph.filters[1].filt_name, b"overlay");
    assert_eq!(graph.filters[1].index, 1);
    assert_eq!(links_of(&graph), vec![link(0, 0, 1, 0)]);
    assert_eq!(
        pads_of(&graph.open_inputs),
        vec![pad(Some("0:v"), 0, 0), pad(Some("1:v"), 1, 1)]
    );
    assert_eq!(pads_of(&graph.open_outputs), vec![pad(Some("out"), 1, 0)]);
    assert_accounted(&graph);
}

#[test]
fn scale_inherits_the_directive() {
    let graph = parse("sws_flags=+accurate_rnd;scale").unwrap();
    assert_eq!(graph.scale_sws_opts, Some(b"flags=+accurate_rnd" as &[u8]));
    assert_eq!(graph.filters[0].args, b"flags=+accurate_rnd");
    assert_eq!(graph.filters[0].inst_name, b"Parsed_scale_0");
}

#[test]
fn scale_with_flags_of_its_own_keeps_them() {
    let graph = parse("sws_flags=bicubic;scale=640:480:flags=neighbor,hflip").unwrap();
    assert_eq!(graph.filters[0].args, b"640:480:flags=neighbor");
    assert_eq!(graph.filters[1].args, b"");
}

#[test]
fn scale_appends_the_directive_to_its_arguments() {
    let graph = parse("sws_flags=bicubic;scale=640:480;overlay=1:2").unwrap();
    assert_eq!(graph.filters[0].args, b"640:480:flags=bicubic");
    assert_eq!(graph.filters[1].args, b"1:2");
}

#[test]
fn inherited_options_are_joined_only_where_both_sides_hold_something() {
    let some = FilterGraph { scale_sws_opts: Some(b"flags=x") };
    let empty = FilterGraph { scale_sws_opts: Some(b"") };
    let none = FilterGraph { scale_sws_opts: None };
    assert_eq!(filter_request(&some, b"scale", b"", 0).args, b"flags=x");
    assert_eq!(filter_request(&some, b"scale", b"1:2", 0).args, b"1:2:flags=x");
    assert_eq!(filter_request(&empty, b"scale", b"1:2", 0).args, b"1:2");
    assert_eq!(filter_request(&empty, b"scale", b"", 0).args, b"");
    assert_eq!(filter_request(&none, b"scale", b"1:2", 0).args, b"1:2");
    assert_eq!(filter_request(&some, b"scale", b"a:flags=y", 0).args, b"a:flags=y");
    assert_eq!(filter_request(&some, b"scaler", b"1:2", 0).args, b"1:2");
}

#[test]
fn piped_and_labelled_inputs_fill_both_pads() {
    let graph = parse("[a]setpts=PTS-STARTPTS[b];[b][c]overlay").unwrap();
    assert_eq!(links_of(&graph), vec![link(0, 0, 1, 0)]);
    assert_eq!(
        pads_of(&graph.open_inputs),
        vec![pad(Some("a"), 0, 0), pad(Some("c"), 1, 1)]
    );
    assert_eq!(pads_of(&graph.open_outputs), vec![pad(None, 1, 0)]);
    assert_accounted(&graph);
}

#[test]
fn three_labels_are_too_many_for_one_pad() {
    match parse("[a][b][c]setpts") {
        Err(ParseError::TooManyInputs { filter }) => assert_eq!(filter, b"setpts"),
        other => panic!("{:?}", other),
    }
}

#[test]
fn unknown_filter_is_refused() {
    match parse("nonexistentfilter123") {
        Err(ParseError::UnknownFilter { name }) => assert_eq!(name, b"nonexistentfilter123"),
        other => panic!("{:?}", other),
    }
}

#[test]
fn directive_without_end_is_refused() {
    assert!(matches!(parse("sws_flags=foo"), Err(ParseError::UnterminatedDirective)));
}

#[test]
fn rejected_arguments_are_an_init_error() {
    match parse("split=many") {
        Err(ParseError::FilterInitError { name, args }) => {
            assert_eq!(name, b"split");
            assert_eq!(args, b"many");
        }
        other => panic!("{:?}", other),
    }
}

#[test]
fn label_without_output_pad_is_refused() {
    match parse("nullsink[out]") {
        Err(ParseError::TooFewOutputs { label }) => assert_eq!(label, b"out"),
        other => panic!("{:?}", other),
    }
    match parse("scale[a][b]") {
        Err(ParseError::TooFewOutputs { label }) => assert_eq!(label, b"b"),
        other => panic!("{:?}", other),
    }
}

#[test]
fn trailing_text_is_refused() {
    match parse("scale=1:2]rest") {
        Err(ParseError::UnexpectedTrailingText { rest }) => assert_eq!(rest, b"]rest"),
        other => panic!("{:?}", other),
    }
}

#[test]
fn label_without_end_is_refused() {
    assert!(matches!(parse("[in"), Err(ParseError::UnterminatedLabel)));
    assert!(matches!(parse("scale[out"), Err(ParseError::UnterminatedLabel)));
}

#[test]
fn empty_text_asks_for_a_filter_without_a_name() {
    match parse("") {
        Err(ParseError::UnknownFilter { name }) => assert_eq!(name, b""),
        other => panic!("{:?}", other),
    }
    match parse("scale;") {
        Err(ParseError::UnknownFilter { name }) => assert_eq!(name, b""),
        other => panic!("{:?}", other),
    }
}

#[test]
fn first_error_in_the_text_wins() {
    // The unknown filter stands before the label that is not closed.
    assert!(matches!(parse("nosuch,scale[a"), Err(ParseError::UnknownFilter { .. })));
    // The label that is not closed stands before the unknown filter.
    assert!(matches!(parse("scale[a;nosuch"), Err(ParseError::UnterminatedLabel)));
}

#[test]
fn indices_follow_the_text_across_commas_and_semicolons() {
    let graph = parse("testsrc,scale;testsrc,hflip,null;testsrc").unwrap();
    let names: Vec<&[u8]> = graph.filters.iter().map(|f| &f.filt_name[..]).collect();
    assert_eq!(
        names,
        vec![&b"testsrc"[..], b"scale", b"testsrc", b"hflip", b"null", b"testsrc"]
    );
    for (i, filter) in graph.filters.iter().enumerate() {
        assert_eq!(filter.index, i);
    }
    assert_eq!(graph.filters[4].inst_name, b"Parsed_null_4");
    assert_eq!(links_of(&graph), vec![link(0, 0, 1, 0), link(2, 0, 3, 0), link(3, 0, 4, 0)]);
    assert_eq!(
        pads_of(&graph.open_outputs),
        vec![pad(None, 1, 0), pad(None, 4, 0), pad(None, 5, 0)]
    );
    assert_accounted(&graph);
}

#[test]
fn forward_reference_is_linked_when_the_label_appears() {
    // `overlay` asks for `late` before any filter has made it.
    let graph = parse("testsrc[a];[a][late]overlay[out];testsrc[late]").unwrap();
    assert_eq!(links_of(&graph), vec![link(0, 0, 1, 0), link(2, 0, 1, 1)]);
    assert!(graph.open_inputs.is_empty());
    assert_eq!(pads_of(&graph.open_outputs), vec![pad(Some("out"), 1, 0)]);
    assert_accounted(&graph);
}

#[test]
fn consumed_label_makes_one_link_and_leaves_no_open_pad() {
    let graph = parse("testsrc[x];[x]nullsink").unwrap();
    assert_eq!(links_of(&graph), vec![link(0, 0, 1, 0)]);
    assert!(graph.open_inputs.is_empty());
    assert!(graph.open_outputs.is_empty());
    assert_accounted(&graph);
}

#[test]
fn first_of_two_outputs_with_one_label_is_taken() {
    let graph = parse("split[x][x];[x]nullsink").unwrap();
    assert_eq!(links_of(&graph), vec![link(0, 0, 1, 0)]);
    assert_eq!(pads_of(&graph.open_outputs), vec![pad(Some("x"), 0, 1)]);
    assert_accounted(&graph);
}

#[test]
fn pad_counts_come_from_the_arguments() {
    let graph = parse("[a][b][c]hstack=inputs=3,split=3[x][y][z]").unwrap();
    assert_eq!(graph.filters[0].nb_inputs, 3);
    assert_eq!(graph.filters[1].nb_outputs, 3);
    assert_eq!(links_of(&graph), vec![link(0, 0, 1, 0)]);
    assert_eq!(graph.open_inputs.len(), 3);
    assert_eq!(graph.open_outputs.len(), 3);
    assert_accounted(&graph);
}

#[test]
fn parsing_twice_gives_the_same_graph() {
    let text = "sws_flags=bicubic;[in]split[a][b];[a]scale=1:2[c];[b][c]overlay,hflip[out]";
    let first = parse(text).unwrap();
    let second = parse(text).unwrap();
    assert_eq!(first.scale_sws_opts, second.scale_sws_opts);
    assert_eq!(links_of(&first), links_of(&second));
    assert_eq!(pads_of(&first.open_inputs), pads_of(&second.open_inputs));
    assert_eq!(pads_of(&first.open_outputs), pads_of(&second.open_outputs));
    assert_eq!(first.filters.len(), second.filters.len());
    for (a, b) in first.filters.iter().zip(second.filters.iter()) {
        assert_eq!(a.index, b.index);
        assert_eq!(a.filt_name, b.filt_name);
        assert_eq!(a.inst_name, b.inst_name);
        assert_eq!(a.args, b.args);
        assert_eq!(a.nb_inputs, b.nb_inputs);
        assert_eq!(a.nb_outputs, b.nb_outputs);
    }
    assert_accounted(&first);
}

#[test]
fn registry_is_asked_for_each_filter_in_order() {
    let asked = std::cell::RefCell::new(Vec::new());
    let recording = |filt_name: &[u8], inst_name: &[u8], args: &[u8]| {
        asked
            .borrow_mut()
            .push((filt_name.to_vec(), inst_name.to_vec(), args.to_vec()));
        RegistryAnswer::Pads { inputs: 1, outputs: 1 }
    };
    let graph = avfilter_graph_parse2("a=1 , b@x = 2:3 ;c", &recording).unwrap();
    assert_eq!(graph.filters.len(), 3);
    assert_eq!(
        *asked.borrow(),
        vec![
            (b"a".to_vec(), b"Parsed_a_0".to_vec(), b"1".to_vec()),
            (b"b".to_vec(), b"b@x".to_vec(), b"2:3".to_vec()),
            (b"c".to_vec(), b"Parsed_c_2".to_vec(), b"".to_vec()),
        ]
    );
}

#[test]
fn instance_names() {
    let graph = FilterGraph::default();
    let named = filter_request(&graph, b"scale@big", b"", 7);
    assert_eq!(named.filt_name, b"scale");
    assert_eq!(named.inst_name, b"scale@big");
    let trailing = filter_request(&graph, b"scale@", b"", 7);
    assert_eq!(trailing.filt_name, b"scale@");
    assert_eq!(trailing.inst_name, b"Parsed_scale@_7");
    let leading = filter_request(&graph, b"@x", b"", 12);
    assert_eq!(leading.filt_name, b"");
    assert_eq!(leading.inst_name, b"@x");
    let twice = filter_request(&graph, b"a@b@c", b"", 0);
    assert_eq!(twice.filt_name, b"a");
    assert_eq!(twice.inst_name, b"a@b@c");
}

#[test]
fn instantiate_follows_the_answer() {
    let graph = FilterGraph::default();
    let made = instantiate(
        filter_request(&graph, b"overlay", b"1:2", 3),
        3,
        RegistryAnswer::Pads { inputs: 2, outputs: 1 },
    )
    .unwrap();
    assert_eq!(made.index, 3);
    assert_eq!(made.filt_name, b"overlay");
    assert_eq!(made.inst_name, b"Parsed_overlay_3");
    assert_eq!(made.args, b"1:2");
    assert_eq!((made.nb_inputs, made.nb_outputs), (2, 1));
    assert!(matches!(
        instantiate(filter_request(&graph, b"overlay", b"", 3), 3, RegistryAnswer::Unknown),
        Err(ParseError::UnknownFilter { .. })
    ));
    assert!(matches!(
        instantiate(filter_request(&graph, b"overlay", b"", 3), 3, RegistryAnswer::Rejected),
        Err(ParseError::FilterInitError { .. })
    ));
}

#[test]
fn decimal_digits() {
    let mut out = b"n=".to_vec();
    push_decimal(&mut out, 0);
    out.push(b',');
    push_decimal(&mut out, 9);
    out.push(b',');
    push_decimal(&mut out, 10);
    out.push(b',');
    push_decimal(&mut out, 4096);
    out.push(b',');
    push_decimal(&mut out, usize::MAX);
    assert_eq!(out, format!("n=0,9,10,4096,{}", usize::MAX).into_bytes());
}

#[test]
fn trimming() {
    assert_eq!(trim(b"  a b \t\n"), b"a b");
    assert_eq!(trim(b"ab"), b"ab");
    assert_eq!(trim(b" \t\n "), b"");
    assert_eq!(trim(b""), b"");
    // A carriage return is not cut off.
    assert_eq!(trim(b" a\r "), b"a\r");
}

#[test]
fn searching_and_comparing() {
    assert!(contains(b"a:flags=b", b"flags"));
    assert!(contains(b"flags", b"flags"));
    assert!(!contains(b"flag", b"flags"));
    assert!(!contains(b"", b"flags"));
    assert!(contains(b"abc", b""));
    assert!(contains(b"xflagflags", b"flags"));
    assert!(bytes_eq(b"abc", b"abc"));
    assert!(!bytes_eq(b"abc", b"abd"));
    assert!(!bytes_eq(b"abc", b"ab"));
    let mut out = b"ab".to_vec();
    push_bytes(&mut out, b"cd");
    assert_eq!(out, b"abcd");
}

#[test]
fn cursor_is_clamped_to_the_end() {
    let mut p = GraphParser::new("ab");
    p.skip(usize::MAX);
    assert_eq!(p.peek(), None);
    assert_eq!(p.remaining(), b"");
    assert_eq!(p.peek_len(0), Some(b"" as &[u8]));
    assert_eq!(p.peek_len(1), None);
}

#[test]
fn labels_are_read_one_by_one() {
    let mut p = GraphParser::new("[a] [bc]x[d");
    assert_eq!(p.parse_label().unwrap(), Some(b"a" as &[u8]));
    assert_eq!(p.parse_label().unwrap(), None);
    p.skip_ws();
    assert_eq!(p.parse_label().unwrap(), Some(b"bc" as &[u8]));
    assert_eq!(p.parse_label().unwrap(), None);
    p.skip(1);
    assert!(matches!(p.parse_label(), Err(ParseError::UnterminatedLabel)));
    assert_eq!(p.remaining(), b"d");
}

#[test]
fn inputs_take_open_outputs_of_their_label() {
    let mut open_outputs = vec![
        FilterInOut { name: Some(b"x"), pad_idx: 1, filter_ctx: Some(4) },
        FilterInOut { name: Some(b"y"), pad_idx: 0, filter_ctx: Some(5) },
        FilterInOut { name: Some(b"x"), pad_idx: 2, filter_ctx: Some(6) },
    ];
    let mut curr_inputs = vec![FilterInOut { name: None, pad_idx: 0, filter_ctx: Some(7) }];
    let mut p = GraphParser::new("[new][x] [x]f");
    p.parse_inputs(&mut curr_inputs, &mut open_outputs).unwrap();
    assert_eq!(
        pads_of(&curr_inputs),
        vec![
            (Some(b"new".to_vec()), None, 0),
            pad(Some("x"), 4, 1),
            pad(Some("x"), 6, 2),
            pad(None, 7, 0),
        ]
    );
    assert_eq!(pads_of(&open_outputs), vec![pad(Some("y"), 5, 0)]);
    assert_eq!(p.remaining(), b"f");
}

#[test]
fn linking_fills_missing_inputs_with_anonymous_pads() {
    let mut links = vec![];
    let mut open_inputs = vec![];
    let mut curr_inputs = vec![FilterInOut { name: None, pad_idx: 3, filter_ctx: Some(1) }];
    let mut filter = FilterContext::default();
    filter.index = 2;
    filter.nb_inputs = 2;
    filter.nb_outputs = 2;
    GraphParser::link_filter_inouts(2, &mut links, &mut filter, &mut curr_inputs, &mut open_inputs)
        .unwrap();
    assert_eq!(links.len(), 1);
    assert_eq!(
        (links[0].from_filter, links[0].from_pad_idx, links[0].to_filter, links[0].to_pad_idx),
        (1, 3, 2, 0)
    );
    assert_eq!(pads_of(&open_inputs), vec![pad(None, 2, 1)]);
    assert_eq!(pads_of(&curr_inputs), vec![pad(None, 2, 0), pad(None, 2, 1)]);
}

#[test]
fn two_open_outputs_of_one_label_both_stay_open() {
    let graph = parse("testsrc[x];testsrc[x]").unwrap();
    assert!(graph.links.is_empty());
    assert_eq!(
        pads_of(&graph.open_outputs),
        vec![pad(Some("x"), 0, 0), pad(Some("x"), 1, 0)]
    );
    assert_accounted(&graph);
}

#[test]
fn labels_are_compared_byte_for_byte() {
    let graph = parse("testsrc[out];[Out]nullsink;[ou]nullsink;[out ]nullsink").unwrap();
    assert!(graph.links.is_empty());
    assert_eq!(pads_of(&graph.open_outputs), vec![pad(Some("out"), 0, 0)]);
    assert_eq!(
        pads_of(&graph.open_inputs),
        vec![pad(Some("Out"), 1, 0), pad(Some("ou"), 2, 0), pad(Some("out "), 3, 0)]
    );
    assert_accounted(&graph);
}

#[test]
fn blanks_may_stand_around_labels_and_separators() {
    let graph = parse(" \t[a] [b]\n overlay = 1:2 \r\n [c] \n , \t hflip \n ; \r testsrc ").unwrap();
    let names: Vec<&[u8]> = graph.filters.iter().map(|f| &f.filt_name[..]).collect();
    assert_eq!(names, vec![&b"overlay"[..], b"hflip", b"testsrc"]);
    assert_eq!(graph.filters[0].args, b"1:2 \r");
    // `c` took the only output of `overlay`, so `hflip` has nothing to read from.
    assert_eq!(
        pads_of(&graph.open_inputs),
        vec![pad(Some("a"), 0, 0), pad(Some("b"), 0, 1), pad(None, 1, 0)]
    );
    assert_accounted(&graph);
}
