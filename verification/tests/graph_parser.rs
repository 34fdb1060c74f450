use filtergraph::graph::{
    FilterContext, FilterGraph, FilterInOut, FilterLink, RegistryAnswer,
};
use filtergraph::parse::avfilter_graph_parse2;
use filtergraph::scanner::GraphParser;

/// A registry that knows a handful of filters by name.
fn registry(filt_name: &[u8], _inst_name: &[u8], args: &[u8]) -> RegistryAnswer {
    let pads = |inputs: u32, outputs: u32| RegistryAnswer::Pads { inputs, outputs };
    match filt_name {
        b"split" => pads(1, 2),
        b"crop" | b"vflip" | b"pad" | b"subtitles" | b"scale" | b"negate" | b"hflip"
        | b"edgedetect" | b"trim" | b"setpts" => pads(1, 1),
        b"overlay" | b"concat" => pads(2, 1),
        b"hstack" | b"vstack" | b"amerge" => {
            if args == b"inputs=2" || args.is_empty() {
                pads(2, 1)
            } else {
                RegistryAnswer::Rejected
            }
        }
        b"movie" => RegistryAnswer::Rejected,
        _ => RegistryAnswer::Unknown,
    }
}

#[test]
fn get() {
    let mut p = GraphParser::new("abcd");
    assert_eq!(p.get(), Some(b'a'));
    assert_eq!(p.get(), Some(b'b'));
    assert_eq!(p.get(), Some(b'c'));
    assert_eq!(p.get(), Some(b'd'));
    assert_eq!(p.get(), None);
    assert_eq!(p.get(), None);
}

#[test]
fn remaining() {
    let mut p = GraphParser::new("abcd");
    assert_eq!(p.remaining(), b"abcd");
    p.skip(1);
    assert_eq!(p.remaining(), b"bcd");
    p.skip(3);
    assert_eq!(p.remaining(), b"");
}

#[test]
fn peek_len() {
    let mut p = GraphParser::new("abcdefgh");
    p.skip(1);
    assert_eq!(p.peek_len(3), Some(b"bcd" as &[u8]));
    assert_eq!(p.peek_len(3), Some(b"bcd" as &[u8]));
    p.skip(2);
    assert_eq!(p.peek_len(5), Some(b"defgh" as &[u8]));
    assert_eq!(p.peek_len(6), None);
}

#[test]
fn peek() {
    let mut p = GraphParser::new("abcd");
    assert_eq!(p.peek(), Some(b'a'));
    p.skip(1);
    assert_eq!(p.peek(), Some(b'b'));
    p.skip(1);
    assert_eq!(p.peek(), Some(b'c'));
    p.skip(1);
    assert_eq!(p.peek(), Some(b'd'));
    p.skip(1);
    assert_eq!(p.peek(), None);
}

#[test]
fn peek_until() {
    let mut p = GraphParser::new("abcd;cdef;a;");
    assert_eq!(p.peek_until(|x| x == b';'), Some(b"abcd" as &[u8]));
    p.skip(5);
    assert_eq!(p.peek_until(|x| x == b';'), Some(b"cdef" as &[u8]));
    p.skip(5);
    assert_eq!(p.peek_until(|x| x == b';'), Some(b"a" as &[u8]));
    p.skip(5);
    assert_eq!(p.peek_until(|x| x == b';'), None);
}

#[test]
fn peek_until_end() {
    let mut p = GraphParser::new("abcd;cdef;a;");
    assert_eq!(p.peek_until_end(|x| x == b';'), b"abcd");
    p.skip(5);
    assert_eq!(p.peek_until_end(|x| x == b';'), b"cdef");
    p.skip(5);
    assert_eq!(p.peek_until_end(|x| x == b';'), b"a");
    p.skip(5);
    assert_eq!(p.peek_until_end(|x| x == b';'), b"");
}

#[test]
fn skip_ws() {
    let mut p = GraphParser::new("\r\n\t  \r\r\n\t\t\n\n\r");
    p.skip_ws();
    assert_eq!(None, p.peek());
    let mut p = GraphParser::new("a\r\n\t \t\r\r\n\t\t\n\n\r");
    p.skip_ws();
    assert_eq!(Some(b'a'), p.peek());
    let mut p = GraphParser::new("\r\n \t\ta\r\r\n\t\t\n\n\r");
    p.skip_ws();
    assert_eq!(Some(b'a'), p.peek());
    let mut p = GraphParser::new("\r\n\t\t \r\r\n\t\t\n\n\ra");
    p.skip_ws();
    assert_eq!(Some(b'a'), p.peek());
}

#[test]
fn skip() {
    let mut p = GraphParser::new("\r\n\t\ta\t\r\t\t\t\t\t\r\n\n\n\r");
    p.skip(5);
    p.skip_ws();
    assert_eq!(None, p.peek());
    let mut p = GraphParser::new("\r\n\t\ta\t\r\t\t\t\t\t\r\n\n\n\r");
    p.skip(4);
    p.skip_ws();
    assert_eq!(Some(b'a'), p.peek());
}

#[test]
fn sws_flags() {
    let graph = &mut FilterGraph::default();
    let mut p = GraphParser::new("sws_flags=emm;");
    assert!(p.parse_sws_flags(graph).is_ok());
    assert_eq!(graph.scale_sws_opts, Some(b"flags=emm" as &[u8]));
    assert_eq!(None, p.peek());

    let mut p = GraphParser::new("sws_flags=emm");
    assert!(p.parse_sws_flags(graph).is_err());

    let graph = &mut FilterGraph::default();
    let mut p = GraphParser::new("sws_flag=emm");
    assert!(p.parse_sws_flags(graph).is_ok());
    assert!(graph.scale_sws_opts.is_none());

    let mut p = GraphParser::new("sws_flags=;");
    assert!(p.parse_sws_flags(graph).is_ok());
    assert_eq!(graph.scale_sws_opts, Some(b"flags=" as &[u8]));
    assert_eq!(None, p.peek());
}

#[test]
fn inputs() {
    let curr_inputs = &mut vec![];
    let open_outputs = &mut vec![];
    let mut p = GraphParser::new("[foo][bar]fakefilter[abc][def]");
    assert!(p.parse_inputs(curr_inputs, open_outputs).is_ok());
    assert_eq!(curr_inputs[0].name, Some(b"foo" as &[u8]));
    assert_eq!(curr_inputs[1].name, Some(b"bar" as &[u8]));
}

#[test]
fn filter_wrong() {
    let filter = &mut FilterContext::default();
    let graph = &mut FilterGraph::default();
    assert!(GraphParser::new("asdbfajsdfkaslkdf[abc][def]")
        .parse_filter(0, filter, graph, &registry)
        .is_err());
    assert!(GraphParser::new("overlayoverlay[abc][def]")
        .parse_filter(0, filter, graph, &registry)
        .is_err());
    assert!(GraphParser::new("fakefilter[abc][def]")
        .parse_filter(0, filter, graph, &registry)
        .is_err());
    assert!(GraphParser::new("setsetset[abc][def]")
        .parse_filter(0, filter, graph, &registry)
        .is_err());
    assert!(GraphParser::new("foobar[abc][def]")
        .parse_filter(0, filter, graph, &registry)
        .is_err());
    assert!(GraphParser::new("nullnull[abc][def]")
        .parse_filter(0, filter, graph, &registry)
        .is_err());
}

#[test]
fn filter_no_swscale_opts() {
    let filter = &mut FilterContext::default();
    let graph = &mut FilterGraph::default();
    let mut p = GraphParser::new("split[abc][def]");
    assert!(p.parse_filter(42, filter, graph, &registry).is_ok());
    assert_eq!(filter.index, 42);
    assert_eq!(filter.filt_name, b"split");
    assert_eq!(filter.inst_name, b"Parsed_split_42");
    assert_eq!(filter.args, b"");
    assert_eq!(filter.nb_inputs, 1);
    assert_eq!(filter.nb_outputs, 2);
}

#[test]
fn filter_have_swscale_opts() {
    let filter = &mut FilterContext::default();
    let graph = &mut FilterGraph {
        scale_sws_opts: Some(b"flags=+accurate_rnd+bitexact"),
    };
    let mut p = GraphParser::new("scale[abc]");
    assert!(p.parse_filter(0, filter, graph, &registry).is_ok());
    assert_eq!(filter.index, 0);
    assert_eq!(filter.filt_name, b"scale");
    assert_eq!(filter.inst_name, b"Parsed_scale_0");
    assert_eq!(filter.args, b"flags=+accurate_rnd+bitexact");
    assert_eq!(filter.nb_inputs, 1);
    assert_eq!(filter.nb_outputs, 1);
}

#[test]
fn filter_with_opts() {
    let filter = &mut FilterContext::default();
    let graph = &mut FilterGraph::default();
    let mut p = GraphParser::new("overlay=5:5[abc]");
    assert!(p.parse_filter(666, filter, graph, &registry).is_ok());
    assert_eq!(filter.index, 666);
    assert_eq!(filter.filt_name, b"overlay");
    assert_eq!(filter.inst_name, b"Parsed_overlay_666");
    assert_eq!(filter.args, b"5:5");
    assert_eq!(filter.nb_inputs, 2);
    assert_eq!(filter.nb_outputs, 1);

    let filter = &mut FilterContext::default();
    let graph = &mut FilterGraph {
        scale_sws_opts: Some(b"flags=+accurate_rnd+bitexact"),
    };
    let mut p = GraphParser::new("scale=5:5[abc]");
    assert!(p.parse_filter(666, filter, graph, &registry).is_ok());
    assert_eq!(filter.index, 666);
    assert_eq!(filter.filt_name, b"scale");
    assert_eq!(filter.inst_name, b"Parsed_scale_666");
    assert_eq!(filter.args, b"5:5:flags=+accurate_rnd+bitexact");
    assert_eq!(filter.nb_inputs, 1);
    assert_eq!(filter.nb_outputs, 1);
}

#[test]
fn outputs() {
    let open_inputs: &mut Vec<FilterInOut> = &mut vec![];
    let curr_inputs: &mut Vec<FilterInOut> = &mut vec![];
    let open_outputs: &mut Vec<FilterInOut> = &mut vec![];

    let links: &mut Vec<FilterLink> = &mut vec![];
    let filter = &mut FilterContext::default();
    let graph = &mut FilterGraph::default();

    let mut p = GraphParser::new("[foo][bar]overlay=5:5[abc]");
    assert!(p.parse_inputs(curr_inputs, open_outputs).is_ok());
    assert_eq!(curr_inputs[0].name, Some(b"foo" as &[u8]));
    assert_eq!(curr_inputs[1].name, Some(b"bar" as &[u8]));

    assert!(p.parse_filter(666, filter, graph, &registry).is_ok());
    assert_eq!(filter.index, 666);
    assert_eq!(filter.filt_name, b"overlay");
    assert_eq!(filter.inst_name, b"Parsed_overlay_666");
    assert_eq!(filter.args, b"5:5");
    assert_eq!(filter.nb_inputs, 2);
    assert_eq!(filter.nb_outputs, 1);

    assert!(
        GraphParser::link_filter_inouts(666, links, filter, curr_inputs, open_inputs).is_ok()
    );

    assert!(p
        .parse_outputs(666, links, curr_inputs, open_inputs, open_outputs)
        .is_ok());
    assert!(curr_inputs.is_empty());
    assert_eq!(open_inputs[0].name, Some(b"foo" as &[u8]));
    assert_eq!(open_inputs[1].name, Some(b"bar" as &[u8]));
    assert_eq!(open_outputs[0].name, Some(b"abc" as &[u8]));
}

#[test]
fn good_filtergraph() {
    assert!(avfilter_graph_parse2(
        "split [main][tmp]; [tmp] crop=iw:ih/2:0:0, vflip [flip]; [main][flip] overlay=0:H/2",
        &registry,
    )
    .is_ok());

    assert!(avfilter_graph_parse2("[foo]split [main][tmp]; [tmp] crop=iw:ih/2:0:0, vflip [flip]; [main][flip] overlay=0:H/2[bar]", &registry).is_ok());

    // https://stackoverflow.com/questions/55455922/ffmpeg-using-video-filter-with-complex-filter
    assert!(avfilter_graph_parse2(
        "
            [0]crop = \
                w = in_w-2*150 : \
                h = in_h \
                [a] ;
            [a]pad = \
                width = 980 : \
                height = 980 : \
                x = 0 :
                y = 0 :
                color = black
                [b] ;
            [b]subtitles = 
                filename = subtitles.ass
                [c] ;
            [c][1]overlay = \
                x = 0 :
                y = 0
            ",
        &registry,
    )
    .is_ok());

    // https://superuser.com/questions/781875/ffmpeg-error-vf-af-filter-and-filter-complex-cannot-be-used-together
    assert!(avfilter_graph_parse2(
        "[0:v]scale=854:-2[scaled]; [scaled][1:v]overlay=5:5[out]",
        &registry,
    )
    .is_ok());

    // https://github.com/Vincit/ffmpeg/blob/master/tests/fate/ffmpeg.mak
    assert!(avfilter_graph_parse2(
        "sws_flags=+accurate_rnd+bitexact;[0:0]scale=720:480[v];[v][1:0]overlay[v2]",
        &registry,
    )
    .is_ok());

    // https://stackoverflow.com/questions/13390714/superimposing-two-videos-onto-a-static-image/13405214#13405214
    assert!(avfilter_graph_parse2(
        "[1:v]scale=(iw/2)-20:-1[a]; \
            [2:v]scale=(iw/2)-20:-1[b]; \
            [0:v][a]overlay=10:(main_h/2)-(overlay_h/2):shortest=1[c]; \
            [c][b]overlay=main_w-overlay_w-10:(main_h/2)-(overlay_h/2)[video]",
        &registry,
    )
    .is_ok());

    // https://trac.ffmpeg.org/wiki/FilteringGuide#Examples
    assert!(avfilter_graph_parse2(
        "[0:v]pad=iw*2:ih*2[a]; \
            [1:v]negate[b]; \
            [2:v]hflip[c]; \
            [3:v]edgedetect[d]; \
            [a][b]overlay=w[x]; \
            [x][c]overlay=0:h[y]; \
            [y][d]overlay=w:h[out]",
        &registry,
    )
    .is_ok());

    // https://trac.ffmpeg.org/wiki/FilteringGuide#Examples
    assert!(avfilter_graph_parse2(
        "[1:v]negate[a]; \
            [2:v]hflip[b]; \
            [3:v]edgedetect[c]; \
            [0:v][a]hstack=inputs=2[top]; \
            [b][c]hstack=inputs=2[bottom]; \
            [top][bottom]vstack=inputs=2[out]",
        &registry,
    )
    .is_ok());

    // https://superuser.com/questions/977743/ffmpeg-possible-to-apply-filter-to-only-part-of-a-video-file-while-transcoding
    assert!(avfilter_graph_parse2(
        "[0:v]trim=start=0:duration=90[a];[0:v]trim=start=90:duration=30,setpts=PTS-STARTPTS[b];[b]hflip[c];[a][c]concat[d];[0:v]trim=start=120:duration=60,setpts=PTS-STARTPTS[e];[d][e]concat[out1]",
        &registry,
    ).is_ok());
}

#[test]
fn bad_filtergraph() {
    // https://askubuntu.com/a/268278
    // outdated filtergraph where there are too many inputs specified for the "setpts" filter
    assert!(avfilter_graph_parse2(
        "[0:v][1:v]setpts=PTS-STARTPTS,overlay=20:40[bg]; \
            [bg][2:v]setpts=PTS-STARTPTS,overlay=(W-w)/2:(H-h)/2[v]; \
            [1:a][2:a]amerge=inputs=2[a]",
        &registry,
    )
    .is_err());

    // https://askubuntu.com/a/741206
    assert!(avfilter_graph_parse2(
        "movie=wlogo.png [watermark]; [in][watermark] overlay=main_w-overlay_w-10:10 [out]",
        &registry,
    )
    .is_err());
}
