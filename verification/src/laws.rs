//! What holds of every graph that is read: each pad of each filter is
//! connected exactly once, the filters stand in the order of the text, and
//! the result depends on the text and the registry alone.

use crate::filter::{answered, instance_of, lemma_filter_text_advances, Request};
use crate::graph::{Failure, Filter, Graph, Link, PadRef, RegistryAnswer};
use crate::pads::{
    all_owned, attach_output, claimed_input, connect_input, connect_inputs, first_labelled,
    fresh_outputs, input_labels, lemma_connect_inputs_owned, lemma_first_labelled_bounds,
    lemma_input_labels_advance, lemma_output_labels_advance, lemma_output_labels_owned,
    output_labels, unclaimed, Linking, Wiring,
};
use crate::parse::{
    asked, before_answer, begin, outcome, progress, step, ParseState, Progress,
};
use crate::scanner::{
    blanks_end, is_byte, lemma_blanks_end_bounds, lemma_scan_to_bounds, scan_to, CLOSE_BRACKET,
    OPEN_BRACKET, SEMICOLON,
};
use crate::tally::{
    lemma_tally_concat, lemma_tally_push, lemma_tally_remove, lemma_tally_some, tally,
};
use vstd::prelude::*;

verus! {

/// The test for a pad reference to pad `p` of filter `f`.
pub open spec fn pad_at(f: nat, p: nat) -> spec_fn(PadRef) -> bool {
    |r: PadRef| r.owner == Some(f) && r.pad_idx == p
}

/// The test for a link into input pad `p` of filter `f`.
pub open spec fn link_into(f: nat, p: nat) -> spec_fn(Link) -> bool {
    |l: Link| l.to_filter == f && l.to_pad_idx == p
}

/// The test for a link out of output pad `p` of filter `f`.
pub open spec fn link_out_of(f: nat, p: nat) -> spec_fn(Link) -> bool {
    |l: Link| l.from_filter == f && l.from_pad_idx == p
}

/// 1 if `b` holds, and 0 if it does not.
pub open spec fn once(b: bool) -> nat {
    if b {
        1
    } else {
        0
    }
}

/// Whether filter `f` of `filters` has an input pad `p`.
pub open spec fn has_input(filters: Seq<Filter>, f: nat, p: nat) -> bool {
    f < filters.len() && p < filters[f as int].nb_inputs
}

/// Whether filter `f` of `filters` has an output pad `p`.
pub open spec fn has_output(filters: Seq<Filter>, f: nat, p: nat) -> bool {
    f < filters.len() && p < filters[f as int].nb_outputs
}

/// How often input pad `p` of filter `f` occurs: as the target of a link,
/// or among the pads `waiting`.
pub open spec fn input_uses(links: Seq<Link>, waiting: Seq<PadRef>, f: nat, p: nat) -> nat {
    tally(links, link_into(f, p)) + tally(waiting, pad_at(f, p))
}

/// How often output pad `p` of filter `f` occurs: as the source of a link,
/// or among the pads `waiting`.
pub open spec fn output_uses(links: Seq<Link>, waiting: Seq<PadRef>, f: nat, p: nat) -> nat {
    tally(links, link_out_of(f, p)) + tally(waiting, pad_at(f, p))
}

/// Whether each input pad of each filter occurs exactly once, as the target
/// of a link or among the open inputs, and nothing else occurs there.
pub open spec fn inputs_accounted(
    filters: Seq<Filter>,
    links: Seq<Link>,
    waiting: Seq<PadRef>,
) -> bool {
    forall|f: nat, p: nat| #[trigger]
        input_uses(links, waiting, f, p) == once(has_input(filters, f, p))
}

/// Whether each output pad of each filter occurs exactly once, as the source
/// of a link or among the pads `waiting`, and nothing else occurs there.
pub open spec fn outputs_accounted(
    filters: Seq<Filter>,
    links: Seq<Link>,
    waiting: Seq<PadRef>,
) -> bool {
    forall|f: nat, p: nat| #[trigger]
        output_uses(links, waiting, f, p) == once(has_output(filters, f, p))
}

/// Whether each filter of `filters` carries its position as its index.
pub open spec fn in_order(filters: Seq<Filter>) -> bool {
    forall|i: int| 0 <= i < filters.len() ==> (#[trigger] filters[i]).index == i
}

/// Whether every pad of every filter of `g` is accounted for exactly once:
/// an input pad by a link into it or by an open input, an output pad by a
/// link out of it or by an open output; and every open pad has an owner.
pub open spec fn accounted(g: Graph) -> bool {
    &&& all_owned(g.open_inputs)
    &&& all_owned(g.open_outputs)
    &&& inputs_accounted(g.filters, g.links, g.open_inputs)
    &&& outputs_accounted(g.filters, g.links, g.open_outputs)
}

/// Each label in front of a filter moves a pad from the pool to the pads
/// taken, or adds a pad without an owner: pad `p` of filter `f` occurs in
/// the two together as often as before.
pub proof fn lemma_input_labels_keep_pads(
    text: Seq<u8>,
    pos: int,
    taken: Seq<PadRef>,
    pool: Seq<PadRef>,
    f: nat,
    p: nat,
)
    requires
        0 <= pos <= text.len(),
    ensures
        tally(input_labels(text, pos, taken, pool).taken, pad_at(f, p)) + tally(
            input_labels(text, pos, taken, pool).pool,
            pad_at(f, p),
        ) == tally(taken, pad_at(f, p)) + tally(pool, pad_at(f, p)),
    decreases text.len() - pos,
{
    if pos < text.len() && text[pos] == OPEN_BRACKET {
        let close = scan_to(text, pos + 1, is_byte(CLOSE_BRACKET));
        lemma_scan_to_bounds(text, pos + 1, is_byte(CLOSE_BRACKET));
        if close < text.len() {
            let label = text.subrange(pos + 1, close);
            let pad = claimed_input(pool, label, taken.len());
            let rest = unclaimed(pool, label);
            let at = first_labelled(pool, label, 0);
            lemma_blanks_end_bounds(text, close + 1);
            lemma_first_labelled_bounds(pool, label, 0);
            lemma_input_labels_keep_pads(
                text,
                blanks_end(text, close + 1),
                taken.push(pad),
                rest,
                f,
                p,
            );
            lemma_tally_push(taken, pad, pad_at(f, p));
            if at < pool.len() {
                lemma_tally_remove(pool, at, pad_at(f, p));
            }
        }
    }
}

/// The labels in front of a filter leave an owner to every pad that stays
/// in the pool, and every pad they take is one of the pool or has no owner.
pub proof fn lemma_input_labels_owned(
    text: Seq<u8>,
    pos: int,
    taken: Seq<PadRef>,
    pool: Seq<PadRef>,
)
    requires
        0 <= pos <= text.len(),
        all_owned(pool),
    ensures
        all_owned(input_labels(text, pos, taken, pool).pool),
    decreases text.len() - pos,
{
    if pos < text.len() && text[pos] == OPEN_BRACKET {
        let close = scan_to(text, pos + 1, is_byte(CLOSE_BRACKET));
        lemma_scan_to_bounds(text, pos + 1, is_byte(CLOSE_BRACKET));
        if close < text.len() {
            let label = text.subrange(pos + 1, close);
            lemma_blanks_end_bounds(text, close + 1);
            lemma_first_labelled_bounds(pool, label, 0);
            lemma_input_labels_owned(
                text,
                blanks_end(text, close + 1),
                taken.push(claimed_input(pool, label, taken.len())),
                unclaimed(pool, label),
            );
        }
    }
}

/// Connecting the inputs `pad`, `pad + 1`, ... of filter `index` uses each
/// of these inputs once more, and no other input.
pub proof fn lemma_connect_inputs_targets(
    index: nat,
    nb_inputs: nat,
    pad: nat,
    l: Linking,
    f: nat,
    p: nat,
)
    ensures
        input_uses(
            connect_inputs(index, index, nb_inputs, pad, l).links,
            connect_inputs(index, index, nb_inputs, pad, l).open_inputs,
            f,
            p,
        ) == input_uses(l.links, l.open_inputs, f, p) + once(
            f == index && pad <= p < nb_inputs,
        ),
    decreases nb_inputs - pad,
{
    if pad < nb_inputs {
        let next = connect_input(index, index, pad, l);
        lemma_connect_inputs_targets(index, nb_inputs, pad + 1, next, f, p);
        match (if l.curr.len() == 0 {
            None
        } else {
            l.curr[0].owner
        }) {
            Some(from) => {
                lemma_tally_push(l.links, next.links.last(), link_into(f, p));
            },
            None => {
                lemma_tally_push(l.open_inputs, next.open_inputs.last(), pad_at(f, p));
            },
        }
    }
}

/// Connecting the inputs of a filter moves pads that have an owner from
/// the pads at hand to the sources of links: output pad `p` of filter `f`
/// occurs in the two together as often as before.
pub proof fn lemma_connect_inputs_sources(
    index: nat,
    owner: nat,
    nb_inputs: nat,
    pad: nat,
    l: Linking,
    f: nat,
    p: nat,
)
    ensures
        output_uses(
            connect_inputs(index, owner, nb_inputs, pad, l).links,
            connect_inputs(index, owner, nb_inputs, pad, l).curr,
            f,
            p,
        ) == output_uses(l.links, l.curr, f, p),
    decreases nb_inputs - pad,
{
    if pad < nb_inputs {
        let next = connect_input(index, owner, pad, l);
        lemma_connect_inputs_sources(index, owner, nb_inputs, pad + 1, next, f, p);
        if l.curr.len() > 0 {
            lemma_tally_remove(l.curr, 0, pad_at(f, p));
            match l.curr[0].owner {
                Some(from) => {
                    lemma_tally_push(l.links, next.links.last(), link_out_of(f, p));
                },
                None => {},
            }
        }
    }
}

/// Among the fresh outputs of a filter each of its output pads occurs once,
/// and no other pad.
pub proof fn lemma_fresh_outputs_once(owner: nat, nb_outputs: nat, f: nat, p: nat)
    ensures
        tally(fresh_outputs(owner, nb_outputs), pad_at(f, p)) == once(f == owner && p < nb_outputs),
    decreases nb_outputs,
{
    if nb_outputs > 0 {
        let before = fresh_outputs(owner, (nb_outputs - 1) as nat);
        let last = PadRef { label: None, pad_idx: (nb_outputs - 1) as nat, owner: Some(owner) };
        assert(fresh_outputs(owner, nb_outputs) =~= before.push(last));
        lemma_fresh_outputs_once(owner, (nb_outputs - 1) as nat, f, p);
        lemma_tally_push(before, last, pad_at(f, p));
    }
}

/// Whether every pad of `pads` belongs to filter `index`.
pub open spec fn owned_by(pads: Seq<PadRef>, index: nat) -> bool {
    forall|i: int| 0 <= i < pads.len() ==> (#[trigger] pads[i]).owner == Some(index)
}

/// A label behind a filter moves the first pad at hand to the sources of
/// the links or to the open outputs, and an open input, if one waits under
/// that label, to the targets of the links: every pad occurs as often as
/// before.
pub proof fn lemma_attach_output_keeps_pads(
    index: nat,
    label: Seq<u8>,
    w: Wiring,
    f: nat,
    p: nat,
)
    requires
        w.curr.len() > 0,
        w.curr[0].owner == Some(index),
        all_owned(w.open_inputs),
    ensures
        ({
            let after = attach_output(
                index,
                label,
                w.curr[0],
                Wiring { curr: w.curr.remove(0), ..w },
            );
            &&& input_uses(after.links, after.open_inputs, f, p) == input_uses(
                w.links,
                w.open_inputs,
                f,
                p,
            )
            &&& output_uses(after.links, after.open_outputs + after.curr, f, p) == output_uses(
                w.links,
                w.open_outputs + w.curr,
                f,
                p,
            )
        }),
{
    let out = w.curr[0];
    let rest = w.curr.remove(0);
    let after = attach_output(index, label, out, Wiring { curr: rest, ..w });
    let at = first_labelled(w.open_inputs, label, 0);
    lemma_first_labelled_bounds(w.open_inputs, label, 0);
    lemma_tally_remove(w.curr, 0, pad_at(f, p));
    lemma_tally_concat(w.open_outputs, w.curr, pad_at(f, p));
    lemma_tally_concat(after.open_outputs, after.curr, pad_at(f, p));
    if at < w.open_inputs.len() {
        lemma_tally_remove(w.open_inputs, at, pad_at(f, p));
        lemma_tally_push(w.links, after.links.last(), link_into(f, p));
        lemma_tally_push(w.links, after.links.last(), link_out_of(f, p));
    } else {
        lemma_tally_push(w.open_outputs, after.open_outputs.last(), pad_at(f, p));
    }
}

/// The labels behind a filter lose no pad and make none: every pad occurs
/// as often as before, among the links, the open pads and the pads at
/// hand.
pub proof fn lemma_output_labels_keep_pads(
    text: Seq<u8>,
    pos: int,
    index: nat,
    w: Wiring,
    f: nat,
    p: nat,
)
    requires
        0 <= pos <= text.len(),
        all_owned(w.open_inputs),
        owned_by(w.curr, index),
    ensures
        ({
            let after = output_labels(text, pos, index, w).wiring;
            &&& input_uses(after.links, after.open_inputs, f, p) == input_uses(
                w.links,
                w.open_inputs,
                f,
                p,
            )
            &&& output_uses(after.links, after.open_outputs + after.curr, f, p) == output_uses(
                w.links,
                w.open_outputs + w.curr,
                f,
                p,
            )
        }),
    decreases text.len() - pos,
{
    if pos < text.len() && text[pos] == OPEN_BRACKET {
        let close = scan_to(text, pos + 1, is_byte(CLOSE_BRACKET));
        lemma_scan_to_bounds(text, pos + 1, is_byte(CLOSE_BRACKET));
        if close < text.len() && w.curr.len() > 0 {
            let label = text.subrange(pos + 1, close);
            let rest = Wiring { curr: w.curr.remove(0), ..w };
            let next = attach_output(index, label, w.curr[0], rest);
            lemma_blanks_end_bounds(text, close + 1);
            lemma_first_labelled_bounds(w.open_inputs, label, 0);
            lemma_attach_output_keeps_pads(index, label, w, f, p);
            assert(owned_by(next.curr, index)) by {
                assert forall|i: int| 0 <= i < next.curr.len() implies (
                #[trigger] next.curr[i]).owner == Some(index) by {
                    assert(next.curr[i] == w.curr[i + 1]);
                }
            }
            lemma_output_labels_keep_pads(text, blanks_end(text, close + 1), index, next, f, p);
        }
    }
}

/// The labels behind a filter leave the pads at hand with the filter, and
/// an owner to every open output.
pub proof fn lemma_output_labels_owners(text: Seq<u8>, pos: int, index: nat, w: Wiring)
    requires
        0 <= pos <= text.len(),
        all_owned(w.open_outputs),
        owned_by(w.curr, index),
    ensures
        all_owned(output_labels(text, pos, index, w).wiring.open_outputs),
        owned_by(output_labels(text, pos, index, w).wiring.curr, index),
    decreases text.len() - pos,
{
    if pos < text.len() && text[pos] == OPEN_BRACKET {
        let close = scan_to(text, pos + 1, is_byte(CLOSE_BRACKET));
        lemma_scan_to_bounds(text, pos + 1, is_byte(CLOSE_BRACKET));
        if close < text.len() && w.curr.len() > 0 {
            let label = text.subrange(pos + 1, close);
            let rest = Wiring { curr: w.curr.remove(0), ..w };
            let next = attach_output(index, label, w.curr[0], rest);
            lemma_blanks_end_bounds(text, close + 1);
            assert(owned_by(next.curr, index)) by {
                assert forall|i: int| 0 <= i < next.curr.len() implies (
                #[trigger] next.curr[i]).owner == Some(index) by {
                    assert(next.curr[i] == w.curr[i + 1]);
                }
            }
            lemma_output_labels_owners(text, blanks_end(text, close + 1), index, next);
        }
    }
}

/// What holds between two filters while a graph description is read: the
/// position lies in the text, the filters stand in order, every pad that
/// waits has an owner, and every pad of every filter is accounted for
/// exactly once.
pub open spec fn sound(text: Seq<u8>, st: ParseState) -> bool {
    &&& 0 <= st.pos <= text.len()
    &&& in_order(st.filters)
    &&& all_owned(st.wiring.open_inputs)
    &&& all_owned(st.wiring.open_outputs)
    &&& all_owned(st.wiring.curr)
    &&& inputs_accounted(st.filters, st.wiring.links, st.wiring.open_inputs)
    &&& outputs_accounted(st.filters, st.wiring.links, st.wiring.open_outputs + st.wiring.curr)
}

/// Whether `after` holds the filters of `before`, and one more behind
/// them.
pub open spec fn one_more(before: Seq<Filter>, after: Seq<Filter>) -> bool {
    after.len() == before.len() + 1 && after.drop_last() == before
}

/// Reading one filter keeps what `sound` says, adds one filter behind the
/// others, and moves forward in the text.
pub proof fn lemma_step_sound(text: Seq<u8>, st: ParseState, answer: RegistryAnswer)
    requires
        sound(text, st),
    ensures
        match step(text, st, answer) {
            Progress::Running(next) => {
                &&& sound(text, next)
                &&& st.pos < next.pos
                &&& one_more(st.filters, next.filters)
                &&& next.scale_sws_opts == st.scale_sws_opts
            },
            Progress::Finished(g) => {
                &&& accounted(g)
                &&& in_order(g.filters)
                &&& one_more(st.filters, g.filters)
                &&& g.scale_sws_opts == st.scale_sws_opts
            },
            Progress::Failed(_) => true,
        },
{
    let index = st.filters.len();
    let w = st.wiring;
    let start = blanks_end(text, st.pos);
    lemma_blanks_end_bounds(text, st.pos);
    let labels = input_labels(text, start, Seq::empty(), w.open_outputs);
    lemma_input_labels_advance(text, start, Seq::empty(), w.open_outputs);
    lemma_input_labels_owned(text, start, Seq::empty(), w.open_outputs);
    lemma_filter_text_advances(text, labels.pos);
    if let Ok(pending) = before_answer(text, st) {
        if let Ok(filter) = instance_of(pending.request, index, answer) {
            let joining = Linking {
                links: pending.wiring.links,
                curr: pending.wiring.curr,
                open_inputs: pending.wiring.open_inputs,
            };
            let linked = connect_inputs(index, index, filter.nb_inputs, 0, joining);
            lemma_connect_inputs_owned(index, index, filter.nb_inputs, 0, joining);
            if linked.curr.len() == 0 {
                let fresh = fresh_outputs(index, filter.nb_outputs);
                let behind = Wiring {
                    links: linked.links,
                    curr: fresh,
                    open_inputs: linked.open_inputs,
                    open_outputs: pending.wiring.open_outputs,
                };
                let scan = output_labels(text, pending.pos, index, behind);
                let after = scan.wiring;
                let filters = st.filters.push(filter);
                assert(owned_by(fresh, index));
                lemma_output_labels_advance(text, pending.pos, index, behind);
                lemma_output_labels_owned(text, pending.pos, index, behind);
                lemma_output_labels_owners(text, pending.pos, index, behind);
                lemma_blanks_end_bounds(text, scan.pos);
                assert(filters.drop_last() =~= st.filters);
                assert(in_order(filters));
                assert(inputs_accounted(filters, after.links, after.open_inputs)) by {
                    assert forall|f: nat, p: nat| #[trigger]
                        input_uses(after.links, after.open_inputs, f, p) == once(
                            has_input(filters, f, p),
                        ) by {
                        lemma_output_labels_keep_pads(text, pending.pos, index, behind, f, p);
                        lemma_connect_inputs_targets(index, filter.nb_inputs, 0, joining, f, p);
                        assert(input_uses(w.links, w.open_inputs, f, p) == once(
                            has_input(st.filters, f, p),
                        ));
                    }
                }
                let left = after.open_outputs + after.curr;
                assert(outputs_accounted(filters, after.links, left)) by {
                    assert forall|f: nat, p: nat| #[trigger]
                        output_uses(after.links, after.open_outputs + after.curr, f, p) == once(
                            has_output(filters, f, p),
                        ) by {
                        lemma_output_labels_keep_pads(text, pending.pos, index, behind, f, p);
                        lemma_tally_concat(behind.open_outputs, fresh, pad_at(f, p));
                        lemma_fresh_outputs_once(index, filter.nb_outputs, f, p);
                        lemma_connect_inputs_sources(
                            index,
                            index,
                            filter.nb_inputs,
                            0,
                            joining,
                            f,
                            p,
                        );
                        lemma_tally_concat(labels.taken, w.curr, pad_at(f, p));
                        lemma_input_labels_keep_pads(
                            text,
                            start,
                            Seq::empty(),
                            w.open_outputs,
                            f,
                            p,
                        );
                        lemma_tally_concat(w.open_outputs, w.curr, pad_at(f, p));
                        assert(output_uses(w.links, w.open_outputs + w.curr, f, p) == once(
                            has_output(st.filters, f, p),
                        ));
                    }
                }
                assert(all_owned(after.open_outputs + after.curr));
                assert(all_owned(after.curr));
                assert(left + Seq::<PadRef>::empty() =~= left);
            }
        }
    }
}

/// Reading begins in a state of which `sound` holds, with no filter.
pub proof fn lemma_begin_sound(text: Seq<u8>)
    ensures
        begin(text) matches Progress::Running(st) ==> sound(text, st) && st.filters.len() == 0,
{
    let start = blanks_end(text, 0);
    lemma_blanks_end_bounds(text, 0);
    if start + 10 <= text.len() {
        lemma_scan_to_bounds(text, start + 4, is_byte(SEMICOLON));
    }
    if let Progress::Running(st) = begin(text) {
        assert(st.wiring.open_outputs + st.wiring.curr =~= Seq::<PadRef>::empty());
        assert forall|f: nat, p: nat| #[trigger]
            input_uses(st.wiring.links, st.wiring.open_inputs, f, p) == once(
                has_input(st.filters, f, p),
            ) by {}
        assert forall|f: nat, p: nat| #[trigger]
            output_uses(st.wiring.links, st.wiring.open_outputs + st.wiring.curr, f, p) == once(
                has_output(st.filters, f, p),
            ) by {}
    }
}

/// After `k` filters reading is in a state of which `sound` holds, with
/// `k` filters; and when it has finished, every pad of the graph is
/// accounted for and the filters stand in order.
pub proof fn lemma_progress_sound(text: Seq<u8>, answers: Seq<RegistryAnswer>, k: nat)
    ensures
        match progress(text, answers, k) {
            Progress::Running(st) => sound(text, st) && st.filters.len() == k,
            Progress::Finished(g) => {
                &&& accounted(g)
                &&& in_order(g.filters)
                &&& 0 < g.filters.len() <= k
            },
            Progress::Failed(_) => true,
        },
    decreases k,
{
    if k == 0 {
        lemma_begin_sound(text);
    } else {
        lemma_progress_sound(text, answers, (k - 1) as nat);
        if let Progress::Running(st) = progress(text, answers, (k - 1) as nat) {
            lemma_step_sound(text, st, answers[k - 1]);
        }
    }
}

/// In every graph that is read, each input pad of each filter is the
/// target of exactly one link or is exactly one open input, and never
/// both; each output pad is the source of exactly one link or is exactly
/// one open output, and never both; and no link and no open pad names a
/// pad that no filter has.
pub proof fn lemma_pads_accounted(text: Seq<u8>, answers: Seq<RegistryAnswer>)
    ensures
        outcome(text, answers) matches Progress::Finished(g) ==> accounted(g),
{
    lemma_progress_sound(text, answers, answers.len());
}

/// In every graph that is read, the filter at position `i` carries the
/// index `i`.
pub proof fn lemma_filters_in_order(text: Seq<u8>, answers: Seq<RegistryAnswer>)
    ensures
        outcome(text, answers) matches Progress::Finished(g) ==> in_order(g.filters),
{
    lemma_progress_sound(text, answers, answers.len());
}

/// The filters that reading has made so far.
pub open spec fn filters_of(p: Progress) -> Seq<Filter> {
    match p {
        Progress::Running(st) => st.filters,
        Progress::Finished(g) => g.filters,
        Progress::Failed(_) => Seq::empty(),
    }
}

/// The filters stand in the order in which they are written: the filter at
/// position `k` is the instance that the registry's answer `k` makes of the
/// filter that is read in step `k`.
pub proof fn lemma_filter_follows_text(
    text: Seq<u8>,
    answers: Seq<RegistryAnswer>,
    k: nat,
    n: nat,
)
    requires
        k < filters_of(progress(text, answers, n)).len(),
    ensures
        progress(text, answers, k) matches Progress::Running(st) && before_answer(
            text,
            st,
        ) matches Ok(pending) && instance_of(pending.request, k, answers[k as int]) == Ok::<
            Filter,
            Failure,
        >(filters_of(progress(text, answers, n))[k as int]),
    decreases n,
{
    lemma_progress_sound(text, answers, n);
    if n > 0 {
        lemma_progress_sound(text, answers, (n - 1) as nat);
        match progress(text, answers, (n - 1) as nat) {
            Progress::Running(st) => {
                lemma_step_sound(text, st, answers[n - 1]);
                if k < n - 1 {
                    lemma_filter_follows_text(text, answers, k, (n - 1) as nat);
                    assert(filters_of(progress(text, answers, n)).drop_last()[k as int]
                        == st.filters[k as int]);
                }
            },
            _ => {
                lemma_filter_follows_text(text, answers, k, (n - 1) as nat);
            },
        }
    }
}

/// Each filter is written behind the one before it: reading is further on
/// in the text after `k` filters than after `j` filters, for `j < k`.
pub proof fn lemma_positions_increase(
    text: Seq<u8>,
    answers: Seq<RegistryAnswer>,
    j: nat,
    k: nat,
)
    requires
        j < k,
        progress(text, answers, k) is Running,
    ensures
        progress(text, answers, j) is Running,
        progress(text, answers, j)->Running_0.pos < progress(text, answers, k)->Running_0.pos,
    decreases k,
{
    lemma_progress_sound(text, answers, (k - 1) as nat);
    match progress(text, answers, (k - 1) as nat) {
        Progress::Running(st) => {
            lemma_step_sound(text, st, answers[k - 1]);
            if j < k - 1 {
                lemma_positions_increase(text, answers, j, (k - 1) as nat);
            }
        },
        _ => {},
    }
}

/// Whether `registry` has one answer to each question.
pub open spec fn single_valued<F: Fn(&[u8], &[u8], &[u8]) -> RegistryAnswer>(registry: &F) -> bool {
    forall|filt_name: &[u8], inst_name: &[u8], args: &[u8], a: RegistryAnswer, b: RegistryAnswer|
        #![trigger
            registry.ensures((filt_name, inst_name, args), a),
            registry.ensures((filt_name, inst_name, args), b)
        ]
        registry.ensures((filt_name, inst_name, args), a) && registry.ensures(
            (filt_name, inst_name, args),
            b,
        ) ==> a == b
}

/// A registry that has one answer to each question gives one answer to
/// each request.
pub proof fn lemma_answered_once<F: Fn(&[u8], &[u8], &[u8]) -> RegistryAnswer>(
    registry: &F,
    request: Request,
    a: RegistryAnswer,
    b: RegistryAnswer,
)
    requires
        single_valued(registry),
        answered(registry, request, a),
        answered(registry, request, b),
    ensures
        a == b,
{
    broadcast use vstd::slice::group_slice_axioms;

    let (n1, i1, a1) = choose|filt_name: &[u8], inst_name: &[u8], args: &[u8]|
        {
            &&& filt_name@ == request.filt_name
            &&& inst_name@ == request.inst_name
            &&& args@ == request.args
            &&& #[trigger] registry.ensures((filt_name, inst_name, args), a)
        };
    let (n2, i2, a2) = choose|filt_name: &[u8], inst_name: &[u8], args: &[u8]|
        {
            &&& filt_name@ == request.filt_name
            &&& inst_name@ == request.inst_name
            &&& args@ == request.args
            &&& #[trigger] registry.ensures((filt_name, inst_name, args), b)
        };
    assert(n1 =~= n2);
    assert(i1 =~= i2);
    assert(a1 =~= a2);
}

/// Two readings of one text, with answers of one registry that has one
/// answer to each question, agree on the first `k` filters.
pub proof fn lemma_same_progress<F: Fn(&[u8], &[u8], &[u8]) -> RegistryAnswer>(
    registry: &F,
    text: Seq<u8>,
    first: Seq<RegistryAnswer>,
    second: Seq<RegistryAnswer>,
    k: nat,
)
    requires
        single_valued(registry),
        asked(registry, text, first),
        asked(registry, text, second),
        k <= first.len(),
        k <= second.len(),
    ensures
        progress(text, first, k) == progress(text, second, k),
    decreases k,
{
    if k > 0 {
        lemma_same_progress(registry, text, first, second, (k - 1) as nat);
        let before = progress(text, first, (k - 1) as nat);
        assert(before == progress(text, second, (k - 1) as nat));
        if let Progress::Running(st) = before {
            if let Ok(pending) = before_answer(text, st) {
                lemma_answered_once(registry, pending.request, first[k - 1], second[k - 1]);
            }
        }
    }
}

/// Reading the same text twice gives the same result: the same graph, with
/// the same filters, links and open pads, or the same failure.  This holds
/// of any two readings whose answers came from one registry that has one
/// answer to each question.
pub proof fn lemma_reparse_identical<F: Fn(&[u8], &[u8], &[u8]) -> RegistryAnswer>(
    registry: &F,
    text: Seq<u8>,
    first: Seq<RegistryAnswer>,
    second: Seq<RegistryAnswer>,
)
    requires
        single_valued(registry),
        asked(registry, text, first),
        asked(registry, text, second),
        !(outcome(text, first) is Running),
        !(outcome(text, second) is Running),
    ensures
        outcome(text, first) == outcome(text, second),
{
    if first.len() <= second.len() {
        lemma_same_progress(registry, text, first, second, first.len());
        if first.len() < second.len() {
            let i = first.len() as int;
            assert(progress(text, second, i as nat) is Running);
        }
    } else {
        lemma_same_progress(registry, text, first, second, second.len());
        let i = second.len() as int;
        assert(progress(text, first, i as nat) is Running);
    }
}

/// Whether `longer` begins with the elements of `shorter`.
pub open spec fn begins_with<A>(longer: Seq<A>, shorter: Seq<A>) -> bool {
    shorter.len() <= longer.len() && forall|i: int|
        0 <= i < shorter.len() ==> longer[i] == shorter[i]
}

/// The pads that the labels in front of a filter take come behind those
/// that were taken before.
pub proof fn lemma_input_labels_extend(
    text: Seq<u8>,
    pos: int,
    taken: Seq<PadRef>,
    pool: Seq<PadRef>,
)
    requires
        0 <= pos <= text.len(),
    ensures
        begins_with(input_labels(text, pos, taken, pool).taken, taken),
    decreases text.len() - pos,
{
    if pos < text.len() && text[pos] == OPEN_BRACKET {
        let close = scan_to(text, pos + 1, is_byte(CLOSE_BRACKET));
        lemma_scan_to_bounds(text, pos + 1, is_byte(CLOSE_BRACKET));
        if close < text.len() {
            let label = text.subrange(pos + 1, close);
            lemma_blanks_end_bounds(text, close + 1);
            lemma_input_labels_extend(
                text,
                blanks_end(text, close + 1),
                taken.push(claimed_input(pool, label, taken.len())),
                unclaimed(pool, label),
            );
        }
    }
}

/// A pad that the labels in front of a filter take, and that has an owner,
/// is an open output that was taken out of the pool: a label for which no
/// open output waits stands for a pad without an owner.
pub proof fn lemma_input_labels_take_open_outputs(
    text: Seq<u8>,
    pos: int,
    taken: Seq<PadRef>,
    pool: Seq<PadRef>,
    i: int,
)
    requires
        0 <= pos <= text.len(),
        taken.len() <= i < input_labels(text, pos, taken, pool).taken.len(),
        input_labels(text, pos, taken, pool).taken[i].owner.is_some(),
    ensures
        pool.contains(input_labels(text, pos, taken, pool).taken[i]),
    decreases text.len() - pos,
{
    if pos < text.len() && text[pos] == OPEN_BRACKET {
        let close = scan_to(text, pos + 1, is_byte(CLOSE_BRACKET));
        lemma_scan_to_bounds(text, pos + 1, is_byte(CLOSE_BRACKET));
        if close < text.len() {
            let label = text.subrange(pos + 1, close);
            let pad = claimed_input(pool, label, taken.len());
            let rest = unclaimed(pool, label);
            let at = first_labelled(pool, label, 0);
            let behind = blanks_end(text, close + 1);
            lemma_blanks_end_bounds(text, close + 1);
            lemma_first_labelled_bounds(pool, label, 0);
            lemma_input_labels_extend(text, behind, taken.push(pad), rest);
            if i == taken.len() {
                assert(input_labels(text, pos, taken, pool).taken[i] == pad);
                assert(pool[at] == pad);
            } else {
                lemma_input_labels_take_open_outputs(text, behind, taken.push(pad), rest, i);
                let found = input_labels(text, pos, taken, pool).taken[i];
                let j = choose|j: int| 0 <= j < rest.len() && rest[j] == found;
                if at < pool.len() {
                    assert(rest[j] == if j < at {
                        pool[j]
                    } else {
                        pool[j + 1]
                    });
                }
            }
        }
    }
}

/// Connecting the inputs of a filter keeps the links that were made
/// before, and makes new ones behind them.
pub proof fn lemma_connect_inputs_extend(
    index: nat,
    owner: nat,
    nb_inputs: nat,
    pad: nat,
    l: Linking,
)
    ensures
        begins_with(connect_inputs(index, owner, nb_inputs, pad, l).links, l.links),
    decreases nb_inputs - pad,
{
    if pad < nb_inputs {
        lemma_connect_inputs_extend(
            index,
            owner,
            nb_inputs,
            pad + 1,
            connect_input(index, owner, pad, l),
        );
    }
}

/// The labels behind a filter keep the links that were made before, and
/// make new ones behind them.
pub proof fn lemma_output_labels_extend(text: Seq<u8>, pos: int, index: nat, w: Wiring)
    requires
        0 <= pos <= text.len(),
    ensures
        begins_with(output_labels(text, pos, index, w).wiring.links, w.links),
    decreases text.len() - pos,
{
    if pos < text.len() && text[pos] == OPEN_BRACKET {
        let close = scan_to(text, pos + 1, is_byte(CLOSE_BRACKET));
        lemma_scan_to_bounds(text, pos + 1, is_byte(CLOSE_BRACKET));
        if close < text.len() && w.curr.len() > 0 {
            let label = text.subrange(pos + 1, close);
            lemma_blanks_end_bounds(text, close + 1);
            lemma_output_labels_extend(
                text,
                blanks_end(text, close + 1),
                index,
                attach_output(index, label, w.curr[0], Wiring { curr: w.curr.remove(0), ..w }),
            );
        }
    }
}

/// Connecting the inputs of a filter links each pad at hand that has an
/// owner: where every pad at hand is used up, the pad at position `j` is
/// linked to input pad `pad + j` of the filter.
pub proof fn lemma_connect_inputs_links(
    index: nat,
    owner: nat,
    nb_inputs: nat,
    pad: nat,
    l: Linking,
    j: int,
)
    requires
        0 <= j < l.curr.len(),
        l.curr[j].owner.is_some(),
        connect_inputs(index, owner, nb_inputs, pad, l).curr.len() == 0,
    ensures
        connect_inputs(index, owner, nb_inputs, pad, l).links.contains(
            Link {
                from_filter: l.curr[j].owner.unwrap(),
                from_pad_idx: l.curr[j].pad_idx,
                to_filter: index,
                to_pad_idx: (pad + j) as nat,
            },
        ),
    decreases j,
{
    let next = connect_input(index, owner, pad, l);
    let done = connect_inputs(index, owner, nb_inputs, pad, l);
    if j == 0 {
        lemma_connect_inputs_extend(index, owner, nb_inputs, pad + 1, next);
        assert(done.links[l.links.len() as int] == next.links[l.links.len() as int]);
    } else {
        assert(next.curr[j - 1] == l.curr[j]);
        lemma_connect_inputs_links(index, owner, nb_inputs, pad + 1, next, j - 1);
    }
}

/// Reading a filter keeps the links that were made before, and makes new
/// ones behind them.
pub proof fn lemma_step_keeps_links(text: Seq<u8>, st: ParseState, answer: RegistryAnswer)
    requires
        0 <= st.pos <= text.len(),
        !(step(text, st, answer) is Failed),
    ensures
        begins_with(links_of(step(text, st, answer)), st.wiring.links),
{
    let index = st.filters.len();
    let start = blanks_end(text, st.pos);
    lemma_blanks_end_bounds(text, st.pos);
    let labels = input_labels(text, start, Seq::empty(), st.wiring.open_outputs);
    lemma_input_labels_advance(text, start, Seq::empty(), st.wiring.open_outputs);
    lemma_filter_text_advances(text, labels.pos);
    let pending = before_answer(text, st)->Ok_0;
    let filter = instance_of(pending.request, index, answer)->Ok_0;
    let joining = Linking {
        links: pending.wiring.links,
        curr: pending.wiring.curr,
        open_inputs: pending.wiring.open_inputs,
    };
    let linked = connect_inputs(index, index, filter.nb_inputs, 0, joining);
    lemma_connect_inputs_extend(index, index, filter.nb_inputs, 0, joining);
    let behind = Wiring {
        links: linked.links,
        curr: fresh_outputs(index, filter.nb_outputs),
        open_inputs: linked.open_inputs,
        open_outputs: pending.wiring.open_outputs,
    };
    lemma_output_labels_extend(text, pending.pos, index, behind);
    assert(links_of(step(text, st, answer)) == output_labels(
        text,
        pending.pos,
        index,
        behind,
    ).wiring.links);
}

/// What has been linked stays linked: the links after `k` filters are the
/// first links after `n` filters, for `k <= n`, as long as reading does not
/// fail.
pub proof fn lemma_links_kept(text: Seq<u8>, answers: Seq<RegistryAnswer>, k: nat, n: nat)
    requires
        k <= n,
        !(progress(text, answers, n) is Failed),
    ensures
        !(progress(text, answers, k) is Failed),
        begins_with(links_of(progress(text, answers, n)), links_of(progress(text, answers, k))),
    decreases n - k,
{
    if k < n {
        lemma_progress_sound(text, answers, (n - 1) as nat);
        if let Progress::Running(st) = progress(text, answers, (n - 1) as nat) {
            lemma_step_keeps_links(text, st, answers[n - 1]);
        }
        lemma_links_kept(text, answers, k, (n - 1) as nat);
    }
}

/// Every pad in front of a filter that has an owner is linked to the
/// filter.  Where reading a filter does not fail, the pad at position `j`
/// among the pads at hand, if it has an owner, is linked to input pad `j`
/// of the filter: this link is made, it is the only link out of that
/// output and the only link into that input, and neither pad is open
/// afterwards.
pub proof fn lemma_input_linked(text: Seq<u8>, st: ParseState, answer: RegistryAnswer, j: int)
    requires
        sound(text, st),
        !(step(text, st, answer) is Failed),
        0 <= j < before_answer(text, st)->Ok_0.wiring.curr.len(),
        before_answer(text, st)->Ok_0.wiring.curr[j].owner.is_some(),
    ensures
        ({
            let taken = before_answer(text, st)->Ok_0.wiring.curr[j];
            let from = taken.owner.unwrap();
            let to = st.filters.len();
            let after = step(text, st, answer);
            &&& links_of(after).contains(
                Link {
                    from_filter: from,
                    from_pad_idx: taken.pad_idx,
                    to_filter: to,
                    to_pad_idx: j as nat,
                },
            )
            &&& tally(links_of(after), link_out_of(from, taken.pad_idx)) == 1
            &&& tally(open_outputs_of(after), pad_at(from, taken.pad_idx)) == 0
            &&& tally(links_of(after), link_into(to, j as nat)) == 1
            &&& tally(open_inputs_of(after), pad_at(to, j as nat)) == 0
        }),
{
    let index = st.filters.len();
    let start = blanks_end(text, st.pos);
    lemma_step_sound(text, st, answer);
    lemma_blanks_end_bounds(text, st.pos);
    let labels = input_labels(text, start, Seq::empty(), st.wiring.open_outputs);
    lemma_input_labels_advance(text, start, Seq::empty(), st.wiring.open_outputs);
    lemma_filter_text_advances(text, labels.pos);
    let pending = before_answer(text, st)->Ok_0;
    let taken = pending.wiring.curr[j];
    let from = taken.owner.unwrap();
    let link = Link {
        from_filter: from,
        from_pad_idx: taken.pad_idx,
        to_filter: index,
        to_pad_idx: j as nat,
    };
    let filter = instance_of(pending.request, index, answer)->Ok_0;
    let joining = Linking {
        links: pending.wiring.links,
        curr: pending.wiring.curr,
        open_inputs: pending.wiring.open_inputs,
    };
    let linked = connect_inputs(index, index, filter.nb_inputs, 0, joining);
    lemma_connect_inputs_links(index, index, filter.nb_inputs, 0, joining, j);
    let behind = Wiring {
        links: linked.links,
        curr: fresh_outputs(index, filter.nb_outputs),
        open_inputs: linked.open_inputs,
        open_outputs: pending.wiring.open_outputs,
    };
    lemma_output_labels_extend(text, pending.pos, index, behind);
    let after = step(text, st, answer);
    let links = links_of(after);
    assert(links == output_labels(text, pending.pos, index, behind).wiring.links);
    let at = choose|at: int| 0 <= at < linked.links.len() && linked.links[at] == link;
    assert(links[at] == link);
    lemma_tally_some(links, at, link_out_of(from, taken.pad_idx));
    lemma_tally_some(links, at, link_into(index, j as nat));
    match after {
        Progress::Running(next) => {
            assert(output_uses(
                next.wiring.links,
                next.wiring.open_outputs + next.wiring.curr,
                from,
                taken.pad_idx,
            ) <= 1);
            assert(input_uses(next.wiring.links, next.wiring.open_inputs, index, j as nat) <= 1);
        },
        Progress::Finished(g) => {
            assert(output_uses(g.links, g.open_outputs, from, taken.pad_idx) <= 1);
            assert(input_uses(g.links, g.open_inputs, index, j as nat) <= 1);
        },
        Progress::Failed(_) => {},
    }
}

/// Whether `[`, the bytes of `label` and `]` stand in `text` at `pos`.
pub open spec fn label_at(text: Seq<u8>, pos: int, label: Seq<u8>) -> bool {
    &&& 0 <= pos < text.len()
    &&& text[pos] == OPEN_BRACKET
    &&& scan_to(text, pos + 1, is_byte(CLOSE_BRACKET)) < text.len()
    &&& text.subrange(pos + 1, scan_to(text, pos + 1, is_byte(CLOSE_BRACKET))) == label
}

/// The links of what reading has come to.
pub open spec fn links_of(p: Progress) -> Seq<Link> {
    match p {
        Progress::Running(st) => st.wiring.links,
        Progress::Finished(g) => g.links,
        Progress::Failed(_) => Seq::empty(),
    }
}

/// The input pads that are open in what reading has come to.
pub open spec fn open_inputs_of(p: Progress) -> Seq<PadRef> {
    match p {
        Progress::Running(st) => st.wiring.open_inputs,
        Progress::Finished(g) => g.open_inputs,
        Progress::Failed(_) => Seq::empty(),
    }
}

/// The output pads that are not linked in what reading has come to: the
/// open outputs, and the pads at hand.
pub open spec fn open_outputs_of(p: Progress) -> Seq<PadRef> {
    match p {
        Progress::Running(st) => st.wiring.open_outputs + st.wiring.curr,
        Progress::Finished(g) => g.open_outputs,
        Progress::Failed(_) => Seq::empty(),
    }
}

/// An output that waits under a label is linked to the filter that names
/// the label as its first input.  Where an open output waits under `label`
/// and `[label]` is the first thing in front of the next filter, reading
/// that filter, if it does not fail, links that output to input pad 0 of
/// the filter: this link is made, it is the only link out of that output
/// and the only link into that input, and neither pad is open afterwards.
pub proof fn lemma_labelled_output_linked(
    text: Seq<u8>,
    st: ParseState,
    answer: RegistryAnswer,
    label: Seq<u8>,
)
    requires
        sound(text, st),
        first_labelled(st.wiring.open_outputs, label, 0) < st.wiring.open_outputs.len(),
        label_at(text, blanks_end(text, st.pos), label),
        !(step(text, st, answer) is Failed),
    ensures
        ({
            let waiting = st.wiring.open_outputs[first_labelled(st.wiring.open_outputs, label, 0)];
            let from = waiting.owner.unwrap();
            let to = st.filters.len();
            let after = step(text, st, answer);
            &&& links_of(after).contains(
                Link {
                    from_filter: from,
                    from_pad_idx: waiting.pad_idx,
                    to_filter: to,
                    to_pad_idx: 0,
                },
            )
            &&& tally(links_of(after), link_out_of(from, waiting.pad_idx)) == 1
            &&& tally(open_outputs_of(after), pad_at(from, waiting.pad_idx)) == 0
            &&& tally(links_of(after), link_into(to, 0)) == 1
            &&& tally(open_inputs_of(after), pad_at(to, 0)) == 0
        }),
{
    let pool = st.wiring.open_outputs;
    let at = first_labelled(pool, label, 0);
    let start = blanks_end(text, st.pos);
    let close = scan_to(text, start + 1, is_byte(CLOSE_BRACKET));
    lemma_first_labelled_bounds(pool, label, 0);
    lemma_blanks_end_bounds(text, st.pos);
    lemma_scan_to_bounds(text, start + 1, is_byte(CLOSE_BRACKET));
    lemma_blanks_end_bounds(text, close + 1);
    lemma_input_labels_extend(
        text,
        blanks_end(text, close + 1),
        Seq::<PadRef>::empty().push(pool[at]),
        pool.remove(at),
    );
    let labels = input_labels(text, start, Seq::empty(), pool);
    assert(labels.taken[0] == pool[at]);
    lemma_input_linked(text, st, answer, 0);
}

/// What is linked in front of a filter stays linked in the graph.  Where,
/// after `k` filters, the pad at position `j` among the pads at hand for
/// filter `k` has an owner, the graph that is read in the end links that
/// pad to input pad `j` of filter `k`, by exactly one link, and holds
/// neither pad among its open inputs and outputs.
pub proof fn lemma_input_stays_linked(
    text: Seq<u8>,
    answers: Seq<RegistryAnswer>,
    k: nat,
    j: int,
)
    requires
        progress(text, answers, k) is Running,
        before_answer(text, progress(text, answers, k)->Running_0) is Ok,
        0 <= j < before_answer(
            text,
            progress(text, answers, k)->Running_0,
        )->Ok_0.wiring.curr.len(),
        before_answer(
            text,
            progress(text, answers, k)->Running_0,
        )->Ok_0.wiring.curr[j].owner.is_some(),
        outcome(text, answers) is Finished,
    ensures
        ({
            let taken = before_answer(
                text,
                progress(text, answers, k)->Running_0,
            )->Ok_0.wiring.curr[j];
            let from = taken.owner.unwrap();
            let g = outcome(text, answers)->Finished_0;
            &&& g.links.contains(
                Link {
                    from_filter: from,
                    from_pad_idx: taken.pad_idx,
                    to_filter: k,
                    to_pad_idx: j as nat,
                },
            )
            &&& tally(g.links, link_out_of(from, taken.pad_idx)) == 1
            &&& tally(g.open_outputs, pad_at(from, taken.pad_idx)) == 0
            &&& tally(g.links, link_into(k, j as nat)) == 1
            &&& tally(g.open_inputs, pad_at(k, j as nat)) == 0
        }),
{
    let st = progress(text, answers, k)->Running_0;
    let taken = before_answer(text, st)->Ok_0.wiring.curr[j];
    let from = taken.owner.unwrap();
    let link = Link {
        from_filter: from,
        from_pad_idx: taken.pad_idx,
        to_filter: k,
        to_pad_idx: j as nat,
    };
    let n = answers.len();
    let g = outcome(text, answers)->Finished_0;
    lemma_progress_sound(text, answers, k);
    lemma_progress_sound(text, answers, n);
    if n <= k {
        lemma_stays_finished(text, answers, n, k);
    } else {
        lemma_links_kept(text, answers, k + 1, n);
        lemma_input_linked(text, st, answers[k as int], j);
        let made = links_of(progress(text, answers, k + 1));
        let at = choose|at: int| 0 <= at < made.len() && made[at] == link;
        assert(g.links[at] == link);
        lemma_tally_some(g.links, at, link_out_of(from, taken.pad_idx));
        lemma_tally_some(g.links, at, link_into(k, j as nat));
        assert(output_uses(g.links, g.open_outputs, from, taken.pad_idx) <= 1);
        assert(input_uses(g.links, g.open_inputs, k, j as nat) <= 1);
    }
}

/// A named output that a later filter takes by its label stays linked to
/// that filter in the graph.  Where, after `k` filters, an open output
/// waits under `label`, and `[label]` is the first thing in front of
/// filter `k`, the graph that is read in the end links that output to
/// input pad 0 of filter `k`, by exactly one link, and holds neither pad
/// among its open inputs and outputs.
pub proof fn lemma_labelled_output_stays_linked(
    text: Seq<u8>,
    answers: Seq<RegistryAnswer>,
    k: nat,
    label: Seq<u8>,
)
    requires
        progress(text, answers, k) is Running,
        first_labelled(progress(text, answers, k)->Running_0.wiring.open_outputs, label, 0)
            < progress(text, answers, k)->Running_0.wiring.open_outputs.len(),
        label_at(
            text,
            blanks_end(text, progress(text, answers, k)->Running_0.pos),
            label,
        ),
        outcome(text, answers) is Finished,
    ensures
        ({
            let pool = progress(text, answers, k)->Running_0.wiring.open_outputs;
            let waiting = pool[first_labelled(pool, label, 0)];
            let from = waiting.owner.unwrap();
            let g = outcome(text, answers)->Finished_0;
            &&& g.links.contains(
                Link {
                    from_filter: from,
                    from_pad_idx: waiting.pad_idx,
                    to_filter: k,
                    to_pad_idx: 0,
                },
            )
            &&& tally(g.links, link_out_of(from, waiting.pad_idx)) == 1
            &&& tally(g.open_outputs, pad_at(from, waiting.pad_idx)) == 0
            &&& tally(g.links, link_into(k, 0)) == 1
            &&& tally(g.open_inputs, pad_at(k, 0)) == 0
        }),
{
    let st = progress(text, answers, k)->Running_0;
    let pool = st.wiring.open_outputs;
    let at = first_labelled(pool, label, 0);
    let start = blanks_end(text, st.pos);
    let close = scan_to(text, start + 1, is_byte(CLOSE_BRACKET));
    lemma_progress_sound(text, answers, k);
    lemma_first_labelled_bounds(pool, label, 0);
    lemma_blanks_end_bounds(text, st.pos);
    lemma_scan_to_bounds(text, start + 1, is_byte(CLOSE_BRACKET));
    lemma_blanks_end_bounds(text, close + 1);
    lemma_input_labels_extend(
        text,
        blanks_end(text, close + 1),
        Seq::<PadRef>::empty().push(pool[at]),
        pool.remove(at),
    );
    let labels = input_labels(text, start, Seq::empty(), pool);
    assert(labels.taken[0] == pool[at]);
    if answers.len() <= k {
        lemma_stays_finished(text, answers, answers.len(), k);
    } else {
        lemma_links_kept(text, answers, k + 1, answers.len());
    }
    lemma_input_stays_linked(text, answers, k, 0);
}

/// Once the text has been read to its end, further answers change
/// nothing.
pub proof fn lemma_stays_finished(text: Seq<u8>, answers: Seq<RegistryAnswer>, k: nat, n: nat)
    requires
        k <= n,
        progress(text, answers, k) is Finished,
    ensures
        progress(text, answers, n) == progress(text, answers, k),
    decreases n - k,
{
    if k < n {
        lemma_stays_finished(text, answers, k, (n - 1) as nat);
    }
}

} // verus!
