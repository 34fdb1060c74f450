//! Reading a whole graph description: the leading directive, then filter
//! after filter, chain after chain.

use crate::filter::{
    answered, answers_all, filter_text, instance_of, lemma_filter_text_advances, written_request,
    Request,
};
use crate::graph::{
    Failure, Filter, FilterContext, FilterGraph, FilterInOut, FilterLink, Graph, PadRef,
    ParseError, ParsedGraph, RegistryAnswer,
};
use crate::laws::{accounted, in_order, lemma_progress_sound};
use crate::pads::{
    all_owned, connect_inputs, fresh_outputs, input_labels, lemma_connect_inputs_owned,
    lemma_input_labels_advance, lemma_output_labels_advance, lemma_output_labels_owned,
    output_labels, Linking, Wiring,
};
use crate::scanner::{
    blanks_end, is_byte, lemma_blanks_end_bounds, lemma_scan_to, scan_to, GraphParser, COMMA,
    SEMICOLON,
};
use crate::text::bytes_eq;
use vstd::prelude::*;
use vstd::slice::slice_to_vec;
use vstd::string::StringSliceAdditionalSpecFns;

verus! {

/// The bytes of `sws_flags=`, with which the directive begins that sets the
/// scaler options of the graph.
pub open spec fn sws_flags_key() -> Seq<u8> {
    seq![115u8, 119u8, 115u8, 95u8, 102u8, 108u8, 97u8, 103u8, 115u8, 61u8]
}

/// What the directive at the start of a graph description says.
pub struct Directive {
    /// Where what follows the directive begins.
    pub pos: int,
    /// The scaler options that the directive sets, if there is one.
    pub opts: Option<Seq<u8>>,
    /// Whether a directive begins that no `;` ends.
    pub failed: bool,
}

/// Reads the directive that stands in `text` at `pos`, if there is one.  A
/// directive is `sws_flags=`, then any bytes but `;`, then `;`.  The options
/// it sets are its text from `flags=` on, up to the `;`.
pub open spec fn directive(text: Seq<u8>, pos: int) -> Directive {
    if 0 <= pos && pos + 10 <= text.len() && text.subrange(pos, pos + 10) == sws_flags_key() {
        let close = scan_to(text, pos + 4, is_byte(SEMICOLON));
        if close >= text.len() {
            Directive { pos: pos + 4, opts: None, failed: true }
        } else {
            Directive { pos: close + 1, opts: Some(text.subrange(pos + 4, close)), failed: false }
        }
    } else {
        Directive { pos, opts: None, failed: false }
    }
}

/// How far a graph description has been read, between two filters.
pub struct ParseState {
    /// The position in the text.
    pub pos: int,
    /// The scaler options of the graph.
    pub scale_sws_opts: Option<Seq<u8>>,
    /// The filters made so far.
    pub filters: Seq<Filter>,
    /// The links made so far, and the pads that wait.
    pub wiring: Wiring,
}

/// What has become of reading a graph description.
pub enum Progress {
    /// More filters may follow.
    Running(ParseState),
    /// The text has been read to its end.
    Finished(Graph),
    /// The text is not a graph description.
    Failed(Failure),
}

/// What is known of a filter when the registry is asked about it.
pub struct Pending {
    /// The position behind the text of the filter.
    pub pos: int,
    /// What the registry is asked.
    pub request: Request,
    /// The links and pads, with the inputs of the filter at hand.
    pub wiring: Wiring,
}

/// Where reading begins: behind the blanks at the start of the text and the
/// directive that may follow them, with no filter, no link and no pad.
pub open spec fn begin(text: Seq<u8>) -> Progress {
    let d = directive(text, blanks_end(text, 0));
    if d.failed {
        Progress::Failed(Failure::UnterminatedDirective)
    } else {
        Progress::Running(
            ParseState {
                pos: d.pos,
                scale_sws_opts: d.opts,
                filters: Seq::empty(),
                wiring: Wiring {
                    links: Seq::empty(),
                    curr: Seq::empty(),
                    open_inputs: Seq::empty(),
                    open_outputs: Seq::empty(),
                },
            },
        )
    }
}

/// The first half of reading a filter, up to the question to the registry:
/// blanks, the labels of the inputs, and the text of the filter.
pub open spec fn before_answer(text: Seq<u8>, st: ParseState) -> Result<Pending, Failure> {
    let scan = input_labels(
        text,
        blanks_end(text, st.pos),
        Seq::empty(),
        st.wiring.open_outputs,
    );
    if scan.failed {
        Err(Failure::UnterminatedLabel)
    } else {
        Ok(
            Pending {
                pos: filter_text(text, scan.pos).end,
                request: written_request(st.scale_sws_opts, text, scan.pos, st.filters.len()),
                wiring: Wiring {
                    links: st.wiring.links,
                    curr: scan.taken + st.wiring.curr,
                    open_inputs: st.wiring.open_inputs,
                    open_outputs: scan.pool,
                },
            },
        )
    }
}

/// What follows a filter whose pads are connected: `,` goes on with the
/// next filter of the chain, which takes the outputs that are left; `;`
/// ends the chain, whose outputs that are left stay open; at the end of the
/// text the outputs that are left stay open too, and the graph is done.
pub open spec fn after_filter(
    text: Seq<u8>,
    pos: int,
    scale_sws_opts: Option<Seq<u8>>,
    filters: Seq<Filter>,
    w: Wiring,
) -> Progress {
    if pos >= text.len() {
        Progress::Finished(
            Graph {
                scale_sws_opts,
                filters,
                links: w.links,
                open_inputs: w.open_inputs,
                open_outputs: w.open_outputs + w.curr,
            },
        )
    } else if text[pos] == COMMA {
        Progress::Running(ParseState { pos: pos + 1, scale_sws_opts, filters, wiring: w })
    } else if text[pos] == SEMICOLON {
        Progress::Running(
            ParseState {
                pos: pos + 1,
                scale_sws_opts,
                filters,
                wiring: Wiring {
                    links: w.links,
                    curr: Seq::empty(),
                    open_inputs: w.open_inputs,
                    open_outputs: w.open_outputs + w.curr,
                },
            },
        )
    } else {
        Progress::Failed(
            Failure::UnexpectedTrailingText { rest: text.subrange(pos, text.len() as int) },
        )
    }
}

/// The second half of reading a filter, from the registry's answer on: the
/// instance is made, its inputs are connected, the labels of its outputs
/// are read, and what follows decides how reading goes on.
pub open spec fn after_answer(
    text: Seq<u8>,
    st: ParseState,
    pending: Pending,
    answer: RegistryAnswer,
) -> Progress {
    let index = st.filters.len();
    match instance_of(pending.request, index, answer) {
        Err(failure) => Progress::Failed(failure),
        Ok(filter) => {
            let linked = connect_inputs(
                index,
                index,
                filter.nb_inputs,
                0,
                Linking {
                    links: pending.wiring.links,
                    curr: pending.wiring.curr,
                    open_inputs: pending.wiring.open_inputs,
                },
            );
            if linked.curr.len() > 0 {
                Progress::Failed(Failure::TooManyInputs { filter: filter.filt_name })
            } else {
                let scan = output_labels(
                    text,
                    pending.pos,
                    index,
                    Wiring {
                        links: linked.links,
                        curr: fresh_outputs(index, filter.nb_outputs),
                        open_inputs: linked.open_inputs,
                        open_outputs: pending.wiring.open_outputs,
                    },
                );
                match scan.failure {
                    Some(failure) => Progress::Failed(failure),
                    None => after_filter(
                        text,
                        blanks_end(text, scan.pos),
                        st.scale_sws_opts,
                        st.filters.push(filter),
                        scan.wiring,
                    ),
                }
            }
        },
    }
}

/// Reads one filter, with `answer` for what the registry says of it.
pub open spec fn step(text: Seq<u8>, st: ParseState, answer: RegistryAnswer) -> Progress {
    match before_answer(text, st) {
        Err(failure) => Progress::Failed(failure),
        Ok(pending) => after_answer(text, st, pending, answer),
    }
}

/// What has become of reading `text` after `k` filters, where the registry
/// answered `answers[i]` when it was asked about filter `i`.
pub open spec fn progress(text: Seq<u8>, answers: Seq<RegistryAnswer>, k: nat) -> Progress
    decreases k,
{
    if k == 0 {
        begin(text)
    } else {
        match progress(text, answers, (k - 1) as nat) {
            Progress::Running(st) => step(text, st, answers[k - 1]),
            done => done,
        }
    }
}

/// What becomes of reading `text` when the registry gives the answers
/// `answers`, one for each filter in the order of the text.
pub open spec fn outcome(text: Seq<u8>, answers: Seq<RegistryAnswer>) -> Progress {
    progress(text, answers, answers.len())
}

/// Whether `answers[i]` is what `registry` gave when it was asked about
/// filter `i` of `text`, for each `i`, and reading `text` with these
/// answers gets as far as each of these filters.
pub open spec fn asked<F: Fn(&[u8], &[u8], &[u8]) -> RegistryAnswer>(
    registry: &F,
    text: Seq<u8>,
    answers: Seq<RegistryAnswer>,
) -> bool {
    forall|i: int|
        0 <= i < answers.len() ==> match #[trigger] progress(text, answers, i as nat) {
            Progress::Running(st) => match before_answer(text, st) {
                Ok(pending) => answered(registry, pending.request, answers[i]),
                Err(_) => true,
            },
            _ => false,
        }
}

/// The model of what reading a graph description returned.
pub open spec fn parse_result(res: Result<ParsedGraph, ParseError>) -> Progress {
    match res {
        Ok(graph) => Progress::Finished(graph@),
        Err(e) => Progress::Failed(e@),
    }
}

/// What `progress` says of the first `k` filters depends on the first `k`
/// answers alone.
pub proof fn lemma_progress_prefix(
    text: Seq<u8>,
    a: Seq<RegistryAnswer>,
    b: Seq<RegistryAnswer>,
    k: nat,
)
    requires
        k <= a.len(),
        k <= b.len(),
        forall|i: int| 0 <= i < k ==> a[i] == b[i],
    ensures
        progress(text, a, k) == progress(text, b, k),
    decreases k,
{
    if k > 0 {
        lemma_progress_prefix(text, a, b, (k - 1) as nat);
    }
}

/// One more answer of the registry, for the filter that reading has got to.
pub proof fn lemma_asked_push<F: Fn(&[u8], &[u8], &[u8]) -> RegistryAnswer>(
    registry: &F,
    text: Seq<u8>,
    answers: Seq<RegistryAnswer>,
    st: ParseState,
    answer: RegistryAnswer,
)
    requires
        asked(registry, text, answers),
        progress(text, answers, answers.len()) == Progress::Running(st),
        before_answer(text, st) matches Ok(pending) ==> answered(
            registry,
            pending.request,
            answer,
        ),
    ensures
        asked(registry, text, answers.push(answer)),
        outcome(text, answers.push(answer)) == step(text, st, answer),
{
    let more = answers.push(answer);
    assert forall|i: int| 0 <= i < more.len() implies match #[trigger] progress(
        text,
        more,
        i as nat,
    ) {
        Progress::Running(st) => match before_answer(text, st) {
            Ok(pending) => answered(registry, pending.request, more[i]),
            Err(_) => true,
        },
        _ => false,
    } by {
        lemma_progress_prefix(text, more, answers, i as nat);
        if i < answers.len() {
            assert(more[i] == answers[i]);
        }
    }
    lemma_progress_prefix(text, more, answers, answers.len());
}

/// Whether `b` ends the directive.
fn ends_directive(b: u8) -> (stop: bool)
    ensures
        stop == (b == SEMICOLON),
{
    b == SEMICOLON
}

impl<'buffer> GraphParser<'buffer> {
    /// Reads the directive at the cursor, if there is one, and keeps the
    /// options it sets in `graph`.  Without a directive `graph` and the
    /// cursor stay as they are.
    pub fn parse_sws_flags(&mut self, graph: &mut FilterGraph<'buffer>) -> (res: Result<
        (),
        ParseError,
    >)
        ensures
            final(self).text() == old(self).text(),
            ({
                let d = directive(old(self).text(), old(self).cursor());
                &&& final(self).cursor() == d.pos
                &&& if d.failed {
                    &&& res.is_err()
                    &&& res.unwrap_err()@ == Failure::UnterminatedDirective
                    &&& *final(graph) == *old(graph)
                } else {
                    &&& res.is_ok()
                    &&& final(graph)@ == if d.opts.is_some() {
                        d.opts
                    } else {
                        old(graph)@
                    }
                }
            }),
    {
        proof {
            use_type_invariant(&*self);
            self.lemma_cursor_in_bounds();
        }
        let ghost text = self.text();
        let ghost pos = self.cursor();
        // `sws_flags=`
        let key: [u8; 10] = [115, 119, 115, 95, 102, 108, 97, 103, 115, 61];
        assert(key@ =~= sws_flags_key());
        let begins = match self.peek_len(10) {
            Some(window) => bytes_eq(window, key.as_slice()),
            None => false,
        };
        if !begins {
            return Ok(());
        }
        // The options keep their `flags=`.
        self.skip(4);
        match self.peek_until(ends_directive) {
            Some(opts) => {
                proof {
                    lemma_scan_to(text, pos + 4, pos + 4 + opts@.len(), is_byte(SEMICOLON));
                }
                graph.scale_sws_opts = Some(opts);
                self.skip(opts.len() + 1);
                Ok(())
            },
            None => {
                proof {
                    lemma_scan_to(text, pos + 4, text.len() as int, is_byte(SEMICOLON));
                }
                Err(ParseError::UnterminatedDirective)
            },
        }
    }
}

/// Reads the graph description `filters`.  `registry` is asked about each
/// filter in turn, in the order of the text, as long as reading goes on.
/// The result is what `outcome` says for the answers that `registry` gave.
pub fn avfilter_graph_parse2<'buffer, F: Fn(&[u8], &[u8], &[u8]) -> RegistryAnswer>(
    filters: &'buffer str,
    registry: &F,
) -> (res: Result<ParsedGraph<'buffer>, ParseError>)
    requires
        answers_all(registry),
    ensures
        exists|answers: Seq<RegistryAnswer>|
            {
                &&& #[trigger] asked(registry, filters.spec_bytes(), answers)
                &&& parse_result(res) == outcome(filters.spec_bytes(), answers)
            },
        res matches Ok(graph) ==> accounted(graph@) && in_order(graph@.filters),
{
    let mut graph = FilterGraph::default();
    let mut parser = GraphParser::new(filters);
    let ghost text = parser.text();
    let mut instances: Vec<FilterContext> = Vec::new();
    let mut links: Vec<FilterLink> = Vec::new();
    let mut curr_inputs: Vec<FilterInOut<'buffer>> = Vec::new();
    let mut open_inputs: Vec<FilterInOut<'buffer>> = Vec::new();
    let mut open_outputs: Vec<FilterInOut<'buffer>> = Vec::new();
    let ghost mut answers = Seq::<RegistryAnswer>::empty();
    parser.skip_ws();
    match parser.parse_sws_flags(&mut graph) {
        Ok(()) => {},
        Err(e) => {
            assert(asked(registry, text, answers));
            return Err(e);
        },
    }
    assert(instances.deep_view() =~= Seq::<Filter>::empty());
    assert(links.deep_view() =~= Seq::empty());
    assert(curr_inputs.deep_view() =~= Seq::<PadRef>::empty());
    assert(open_inputs.deep_view() =~= Seq::<PadRef>::empty());
    assert(open_outputs.deep_view() =~= Seq::<PadRef>::empty());
    loop
        invariant
            answers_all(registry),
            parser.text() == text,
            text == filters.spec_bytes(),
            asked(registry, text, answers),
            all_owned(open_inputs.deep_view()),
            progress(text, answers, answers.len()) == Progress::Running(
                ParseState {
                    pos: parser.cursor(),
                    scale_sws_opts: graph@,
                    filters: instances.deep_view(),
                    wiring: Wiring {
                        links: links.deep_view(),
                        curr: curr_inputs.deep_view(),
                        open_inputs: open_inputs.deep_view(),
                        open_outputs: open_outputs.deep_view(),
                    },
                },
            ),
        decreases text.len() - parser.cursor(),
    {
        let ghost st = ParseState {
            pos: parser.cursor(),
            scale_sws_opts: graph@,
            filters: instances.deep_view(),
            wiring: Wiring {
                links: links.deep_view(),
                curr: curr_inputs.deep_view(),
                open_inputs: open_inputs.deep_view(),
                open_outputs: open_outputs.deep_view(),
            },
        };
        let ghost labels = input_labels(
            text,
            blanks_end(text, st.pos),
            Seq::empty(),
            st.wiring.open_outputs,
        );
        proof {
            use_type_invariant(&parser);
            parser.lemma_cursor_in_bounds();
            lemma_blanks_end_bounds(text, st.pos);
            lemma_input_labels_advance(
                text,
                blanks_end(text, st.pos),
                Seq::empty(),
                st.wiring.open_outputs,
            );
            lemma_filter_text_advances(text, labels.pos);
        }
        let index = instances.len();
        let mut filter = FilterContext::default();
        parser.skip_ws();
        match parser.parse_inputs(&mut curr_inputs, &mut open_outputs) {
            Ok(()) => {},
            Err(e) => {
                proof {
                    lemma_asked_push(registry, text, answers, st, RegistryAnswer::Unknown);
                }
                return Err(e);
            },
        }
        let ghost pending = before_answer(text, st)->Ok_0;
        let made = parser.parse_filter(index, &mut filter, &mut graph, registry);
        let ghost answer = choose|answer: RegistryAnswer|
            {
                &&& #[trigger] answered(registry, pending.request, answer)
                &&& match instance_of(pending.request, index as nat, answer) {
                    Ok(instance) => made.is_ok() && filter@ == instance,
                    Err(failure) => made.is_err() && made.unwrap_err()@ == failure,
                }
            };
        proof {
            lemma_asked_push(registry, text, answers, st, answer);
            answers = answers.push(answer);
        }
        match made {
            Ok(()) => {},
            Err(e) => {
                return Err(e);
            },
        }
        let ghost linked = connect_inputs(
            index as nat,
            index as nat,
            filter.nb_inputs as nat,
            0,
            Linking {
                links: pending.wiring.links,
                curr: pending.wiring.curr,
                open_inputs: pending.wiring.open_inputs,
            },
        );
        match GraphParser::link_filter_inouts(
            index,
            &mut links,
            &mut filter,
            &mut curr_inputs,
            &mut open_inputs,
        ) {
            Ok(()) => {},
            Err(e) => {
                return Err(e);
            },
        }
        let ghost behind = Wiring {
            links: linked.links,
            curr: fresh_outputs(index as nat, filter.nb_outputs as nat),
            open_inputs: linked.open_inputs,
            open_outputs: pending.wiring.open_outputs,
        };
        proof {
            lemma_connect_inputs_owned(
                index as nat,
                index as nat,
                filter.nb_inputs as nat,
                0,
                Linking {
                    links: pending.wiring.links,
                    curr: pending.wiring.curr,
                    open_inputs: pending.wiring.open_inputs,
                },
            );
            lemma_output_labels_advance(text, pending.pos, index as nat, behind);
            lemma_output_labels_owned(text, pending.pos, index as nat, behind);
            lemma_blanks_end_bounds(
                text,
                output_labels(text, pending.pos, index as nat, behind).pos,
            );
        }
        match parser.parse_outputs(
            index,
            &mut links,
            &mut curr_inputs,
            &mut open_inputs,
            &mut open_outputs,
        ) {
            Ok(()) => {},
            Err(e) => {
                return Err(e);
            },
        }
        parser.skip_ws();
        let ghost before = instances.deep_view();
        let ghost made_filter = filter@;
        instances.push(filter);
        assert(instances.deep_view() =~= before.push(made_filter));
        let ghost scan = output_labels(text, pending.pos, index as nat, behind);
        let ghost pads_left = curr_inputs.deep_view();
        let ghost pads_open = open_outputs.deep_view();
        assert(outcome(text, answers) == after_filter(
            text,
            parser.cursor(),
            st.scale_sws_opts,
            instances.deep_view(),
            scan.wiring,
        ));
        match parser.peek() {
            None => {
                open_outputs.append(&mut curr_inputs);
                assert(open_outputs.deep_view() =~= pads_open + pads_left);
                proof {
                    lemma_progress_sound(text, answers, answers.len());
                }
                return Ok(
                    ParsedGraph {
                        scale_sws_opts: graph.scale_sws_opts,
                        filters: instances,
                        links,
                        open_inputs,
                        open_outputs,
                    },
                );
            },
            Some(b) => {
                if b == COMMA {
                    parser.skip(1);
                } else if b == SEMICOLON {
                    open_outputs.append(&mut curr_inputs);
                    parser.skip(1);
                    assert(open_outputs.deep_view() =~= pads_open + pads_left);
                    assert(curr_inputs.deep_view() =~= Seq::<PadRef>::empty());
                } else {
                    return Err(
                        ParseError::UnexpectedTrailingText {
                            rest: slice_to_vec(parser.remaining()),
                        },
                    );
                }
            },
        }
    }
}

} // verus!
