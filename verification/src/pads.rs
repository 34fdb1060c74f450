//! Matching pads by label: the inputs in front of a filter, the links into
//! the filter, and the outputs behind it.

use crate::graph::{
    Failure, FilterContext, FilterInOut, FilterLink, Link, PadRef, ParseError,
};
use crate::scanner::{
    blanks_end, is_byte, lemma_blanks_end_bounds, lemma_scan_to, lemma_scan_to_bounds, scan_to,
    GraphParser, CLOSE_BRACKET, OPEN_BRACKET,
};
use crate::text::bytes_eq;
use vstd::prelude::*;
use vstd::slice::slice_to_vec;

verus! {

/// The first position from `from` on at which `pool` holds a pad with the
/// label `label`; the length of `pool` if there is none.
pub open spec fn first_labelled(pool: Seq<PadRef>, label: Seq<u8>, from: int) -> int
    decreases pool.len() - from,
{
    if 0 <= from < pool.len() && pool[from].label != Some(label) {
        first_labelled(pool, label, from + 1)
    } else {
        from
    }
}

/// `first_labelled` stays between its start and the end of the pool.
pub proof fn lemma_first_labelled_bounds(pool: Seq<PadRef>, label: Seq<u8>, from: int)
    requires
        0 <= from <= pool.len(),
    ensures
        from <= first_labelled(pool, label, from) <= pool.len(),
        first_labelled(pool, label, from) < pool.len() ==> pool[first_labelled(
            pool,
            label,
            from,
        )].label == Some(label),
        forall|i: int|
            from <= i < first_labelled(pool, label, from) ==> (#[trigger] pool[i]).label != Some(
                label,
            ),
    decreases pool.len() - from,
{
    if from < pool.len() && pool[from].label != Some(label) {
        lemma_first_labelled_bounds(pool, label, from + 1);
    }
}

/// The position in `pool` of the first pad labelled `label`, or the length
/// of `pool` if no pad has that label.
pub fn find_label(pool: &Vec<FilterInOut>, label: &[u8]) -> (at: usize)
    ensures
        at == first_labelled(pool.deep_view(), label@, 0),
        at <= pool@.len(),
{
    let mut at: usize = 0;
    while at < pool.len()
        invariant
            at <= pool@.len(),
            first_labelled(pool.deep_view(), label@, 0) == first_labelled(
                pool.deep_view(),
                label@,
                at as int,
            ),
        decreases pool@.len() - at,
    {
        let same = match pool[at].name {
            Some(name) => bytes_eq(name, label),
            None => false,
        };
        assert(pool.deep_view()[at as int] == pool@[at as int]@);
        if same {
            return at;
        }
        at = at + 1;
    }
    at
}

/// Where reading the labels in front of a filter has got to.
pub struct InputScan {
    /// The position in the text.
    pub pos: int,
    /// The pads that the labels read so far stand for, in their order.
    pub taken: Seq<PadRef>,
    /// The open outputs that no label has claimed.
    pub pool: Seq<PadRef>,
    /// Whether a label was found that no `]` closes.
    pub failed: bool,
}

/// The pad that the label `label` in front of a filter stands for, when
/// `taken` pads stand before it: the first open output with that label, if
/// there is one, and else a new input that no filter owns yet.
pub open spec fn claimed_input(pool: Seq<PadRef>, label: Seq<u8>, taken: nat) -> PadRef {
    let at = first_labelled(pool, label, 0);
    if at < pool.len() {
        pool[at]
    } else {
        PadRef { label: Some(label), pad_idx: taken, owner: None }
    }
}

/// The open outputs that are left once `label` has claimed its pad.
pub open spec fn unclaimed(pool: Seq<PadRef>, label: Seq<u8>) -> Seq<PadRef> {
    let at = first_labelled(pool, label, 0);
    if at < pool.len() {
        pool.remove(at)
    } else {
        pool
    }
}

/// Reads the labels that stand in `text` at `pos`, one `[label]` after the
/// other with blanks between them, after `taken` has been read already.
pub open spec fn input_labels(
    text: Seq<u8>,
    pos: int,
    taken: Seq<PadRef>,
    pool: Seq<PadRef>,
) -> InputScan
    decreases text.len() - pos,
{
    if 0 <= pos < text.len() && text[pos] == OPEN_BRACKET {
        let close = scan_to(text, pos + 1, is_byte(CLOSE_BRACKET));
        if close >= text.len() {
            InputScan { pos: pos + 1, taken, pool, failed: true }
        } else {
            let label = text.subrange(pos + 1, close);
            proof {
                lemma_scan_to_bounds(text, pos + 1, is_byte(CLOSE_BRACKET));
                lemma_blanks_end_bounds(text, close + 1);
            }
            input_labels(
                text,
                blanks_end(text, close + 1),
                taken.push(claimed_input(pool, label, taken.len())),
                unclaimed(pool, label),
            )
        }
    } else {
        InputScan { pos, taken, pool, failed: false }
    }
}

/// The links made so far and the three lists of pads that wait.
pub struct Wiring {
    /// The links between pads.
    pub links: Seq<Link>,
    /// The pads at hand: in front of a filter its inputs, behind it its
    /// outputs.
    pub curr: Seq<PadRef>,
    /// The input pads that wait for an output of their label.
    pub open_inputs: Seq<PadRef>,
    /// The output pads that wait for an input of their label.
    pub open_outputs: Seq<PadRef>,
}

/// What connecting the inputs of a filter works on: the links made so far,
/// the pads at hand, and the input pads that wait.
pub struct Linking {
    /// The links between pads.
    pub links: Seq<Link>,
    /// The pads at hand.
    pub curr: Seq<PadRef>,
    /// The input pads that wait for an output of their label.
    pub open_inputs: Seq<PadRef>,
}

/// The pad that is handed to an input of a filter when nothing is at hand:
/// it has no label and no owner.
pub open spec fn anonymous_pad() -> PadRef {
    PadRef { label: None, pad_idx: 0, owner: None }
}

/// Connects input pad `pad` of filter `index`: the first pad at hand is
/// taken, or an anonymous one where none is at hand.  A pad that has an
/// owner is an output, and is linked to the input.  A pad without an owner
/// becomes an open input of filter `owner`, under its label.
pub open spec fn connect_input(index: nat, owner: nat, pad: nat, l: Linking) -> Linking {
    let p = if l.curr.len() == 0 {
        anonymous_pad()
    } else {
        l.curr[0]
    };
    let rest = if l.curr.len() == 0 {
        l.curr
    } else {
        l.curr.remove(0)
    };
    match p.owner {
        Some(from) => Linking {
            links: l.links.push(
                Link {
                    from_filter: from,
                    from_pad_idx: p.pad_idx,
                    to_filter: index,
                    to_pad_idx: pad,
                },
            ),
            curr: rest,
            open_inputs: l.open_inputs,
        },
        None => Linking {
            links: l.links,
            curr: rest,
            open_inputs: l.open_inputs.push(
                PadRef { label: p.label, pad_idx: pad, owner: Some(owner) },
            ),
        },
    }
}

/// Connects the input pads `pad`, `pad + 1`, ... below `nb_inputs`, one
/// after the other.
pub open spec fn connect_inputs(
    index: nat,
    owner: nat,
    nb_inputs: nat,
    pad: nat,
    l: Linking,
) -> Linking
    decreases nb_inputs - pad,
{
    if pad >= nb_inputs {
        l
    } else {
        connect_inputs(index, owner, nb_inputs, pad + 1, connect_input(index, owner, pad, l))
    }
}

/// The output pads of a filter that has just been made: one for each of its
/// `nb_outputs` outputs, in order, without a label.
pub open spec fn fresh_outputs(owner: nat, nb_outputs: nat) -> Seq<PadRef> {
    Seq::new(nb_outputs, |p: int| PadRef { label: None, pad_idx: p as nat, owner: Some(owner) })
}

/// Whether every pad of `pads` has an owner.
pub open spec fn all_owned(pads: Seq<PadRef>) -> bool {
    forall|i: int| 0 <= i < pads.len() ==> (#[trigger] pads[i]).owner.is_some()
}

/// Gives the label `label` to the output pad `out` of filter `index`.
/// Where an open input waits under that label, the first such input is
/// taken out of the pool and linked to the output; otherwise the output
/// joins the open outputs under the label.
pub open spec fn attach_output(index: nat, label: Seq<u8>, out: PadRef, w: Wiring) -> Wiring {
    let at = first_labelled(w.open_inputs, label, 0);
    if at < w.open_inputs.len() {
        Wiring {
            links: w.links.push(
                Link {
                    from_filter: index,
                    from_pad_idx: out.pad_idx,
                    to_filter: w.open_inputs[at].owner.unwrap(),
                    to_pad_idx: w.open_inputs[at].pad_idx,
                },
            ),
            open_inputs: w.open_inputs.remove(at),
            ..w
        }
    } else {
        Wiring {
            open_outputs: w.open_outputs.push(PadRef { label: Some(label), ..out }),
            ..w
        }
    }
}

/// Where reading the labels behind a filter has got to.
pub struct OutputScan {
    /// The position in the text.
    pub pos: int,
    /// The links and pads.
    pub wiring: Wiring,
    /// Why reading stopped, if it did not reach the end of the labels.
    pub failure: Option<Failure>,
}

/// Reads the labels that stand in `text` at `pos` behind filter `index`,
/// one `[label]` after the other with blanks between them.  Each label
/// takes the first pad at hand as `attach_output` says.  Reading stops at a
/// label that no `]` closes, and at a label for which no pad is at hand.
pub open spec fn output_labels(text: Seq<u8>, pos: int, index: nat, w: Wiring) -> OutputScan
    decreases text.len() - pos,
{
    if 0 <= pos < text.len() && text[pos] == OPEN_BRACKET {
        let close = scan_to(text, pos + 1, is_byte(CLOSE_BRACKET));
        if close >= text.len() {
            OutputScan { pos: pos + 1, wiring: w, failure: Some(Failure::UnterminatedLabel) }
        } else {
            let label = text.subrange(pos + 1, close);
            if w.curr.len() == 0 {
                OutputScan {
                    pos: close + 1,
                    wiring: w,
                    failure: Some(Failure::TooFewOutputs { label }),
                }
            } else {
                proof {
                    lemma_scan_to_bounds(text, pos + 1, is_byte(CLOSE_BRACKET));
                    lemma_blanks_end_bounds(text, close + 1);
                }
                output_labels(
                    text,
                    blanks_end(text, close + 1),
                    index,
                    attach_output(index, label, w.curr[0], Wiring { curr: w.curr.remove(0), ..w }),
                )
            }
        }
    } else {
        OutputScan { pos, wiring: w, failure: None }
    }
}

/// Reading the input labels moves forward in the text, and stays in it.
pub proof fn lemma_input_labels_advance(
    text: Seq<u8>,
    pos: int,
    taken: Seq<PadRef>,
    pool: Seq<PadRef>,
)
    requires
        0 <= pos <= text.len(),
    ensures
        pos <= input_labels(text, pos, taken, pool).pos <= text.len(),
    decreases text.len() - pos,
{
    if pos < text.len() && text[pos] == OPEN_BRACKET {
        let close = scan_to(text, pos + 1, is_byte(CLOSE_BRACKET));
        lemma_scan_to_bounds(text, pos + 1, is_byte(CLOSE_BRACKET));
        if close < text.len() {
            let label = text.subrange(pos + 1, close);
            lemma_blanks_end_bounds(text, close + 1);
            lemma_input_labels_advance(
                text,
                blanks_end(text, close + 1),
                taken.push(claimed_input(pool, label, taken.len())),
                unclaimed(pool, label),
            );
        }
    }
}

/// Reading the output labels moves forward in the text, and stays in it.
pub proof fn lemma_output_labels_advance(text: Seq<u8>, pos: int, index: nat, w: Wiring)
    requires
        0 <= pos <= text.len(),
    ensures
        pos <= output_labels(text, pos, index, w).pos <= text.len(),
    decreases text.len() - pos,
{
    if pos < text.len() && text[pos] == OPEN_BRACKET {
        let close = scan_to(text, pos + 1, is_byte(CLOSE_BRACKET));
        lemma_scan_to_bounds(text, pos + 1, is_byte(CLOSE_BRACKET));
        if close < text.len() && w.curr.len() > 0 {
            let label = text.subrange(pos + 1, close);
            lemma_blanks_end_bounds(text, close + 1);
            lemma_output_labels_advance(
                text,
                blanks_end(text, close + 1),
                index,
                attach_output(index, label, w.curr[0], Wiring { curr: w.curr.remove(0), ..w }),
            );
        }
    }
}

/// Connecting the inputs of a filter gives every input that is left open
/// an owner.
pub proof fn lemma_connect_inputs_owned(
    index: nat,
    owner: nat,
    nb_inputs: nat,
    pad: nat,
    l: Linking,
)
    requires
        all_owned(l.open_inputs),
    ensures
        all_owned(connect_inputs(index, owner, nb_inputs, pad, l).open_inputs),
    decreases nb_inputs - pad,
{
    if pad < nb_inputs {
        lemma_connect_inputs_owned(
            index,
            owner,
            nb_inputs,
            pad + 1,
            connect_input(index, owner, pad, l),
        );
    }
}

/// Reading the output labels leaves an owner to every input that stays
/// open.
pub proof fn lemma_output_labels_owned(text: Seq<u8>, pos: int, index: nat, w: Wiring)
    requires
        0 <= pos <= text.len(),
        all_owned(w.open_inputs),
    ensures
        all_owned(output_labels(text, pos, index, w).wiring.open_inputs),
    decreases text.len() - pos,
{
    if pos < text.len() && text[pos] == OPEN_BRACKET {
        let close = scan_to(text, pos + 1, is_byte(CLOSE_BRACKET));
        lemma_scan_to_bounds(text, pos + 1, is_byte(CLOSE_BRACKET));
        if close < text.len() && w.curr.len() > 0 {
            let label = text.subrange(pos + 1, close);
            lemma_blanks_end_bounds(text, close + 1);
            lemma_first_labelled_bounds(w.open_inputs, label, 0);
            lemma_output_labels_owned(
                text,
                blanks_end(text, close + 1),
                index,
                attach_output(index, label, w.curr[0], Wiring { curr: w.curr.remove(0), ..w }),
            );
        }
    }
}

/// Whether `b` closes a label.
fn closes_label(b: u8) -> (stop: bool)
    ensures
        stop == (b == CLOSE_BRACKET),
{
    b == CLOSE_BRACKET
}

impl<'buffer> GraphParser<'buffer> {
    /// Reads the label that stands at the cursor, between `[` and `]`, and
    /// moves the cursor behind it.  Without a `[` at the cursor nothing is
    /// read; with a `[` that no `]` closes, the cursor stops behind the `[`.
    pub fn parse_label(&mut self) -> (res: Result<Option<&'buffer [u8]>, ParseError>)
        ensures
            final(self).text() == old(self).text(),
            0 <= old(self).cursor() <= final(self).cursor() <= old(self).text().len(),
            ({
                let text = old(self).text();
                let pos = old(self).cursor();
                let close = scan_to(text, pos + 1, is_byte(CLOSE_BRACKET));
                if pos < text.len() && text[pos] == OPEN_BRACKET {
                    if close >= text.len() {
                        &&& res.is_err()
                        &&& res.unwrap_err()@ == Failure::UnterminatedLabel
                        &&& final(self).cursor() == pos + 1
                    } else {
                        &&& res.is_ok()
                        &&& res.unwrap().is_some()
                        &&& res.unwrap().unwrap()@ == text.subrange(pos + 1, close)
                        &&& final(self).cursor() == close + 1
                    }
                } else {
                    &&& res.is_ok()
                    &&& res.unwrap().is_none()
                    &&& final(self).cursor() == pos
                }
            }),
    {
        proof {
            use_type_invariant(&*self);
            self.lemma_cursor_in_bounds();
        }
        let ghost text = self.text();
        let ghost pos = self.cursor();
        let opens = match self.peek() {
            Some(b) => b == OPEN_BRACKET,
            None => false,
        };
        if !opens {
            return Ok(None);
        }
        self.skip(1);
        match self.peek_until(closes_label) {
            Some(name) => {
                proof {
                    lemma_scan_to(text, pos + 1, pos + 1 + name@.len(), is_byte(CLOSE_BRACKET));
                }
                self.skip(name.len() + 1);
                Ok(Some(name))
            },
            None => {
                proof {
                    lemma_scan_to(text, pos + 1, text.len() as int, is_byte(CLOSE_BRACKET));
                }
                Err(ParseError::UnterminatedLabel)
            },
        }
    }

    /// Reads the labels in front of a filter.  Each label takes the first
    /// open output of that name out of `open_outputs`, or, where there is
    /// none, stands for a new input that no filter owns yet.  The pads so
    /// found are put in front of `curr_inputs`, in the order of the labels.
    pub fn parse_inputs(
        &mut self,
        curr_inputs: &mut Vec<FilterInOut<'buffer>>,
        open_outputs: &mut Vec<FilterInOut<'buffer>>,
    ) -> (res: Result<(), ParseError>)
        ensures
            final(self).text() == old(self).text(),
            ({
                let scan = input_labels(
                    old(self).text(),
                    old(self).cursor(),
                    Seq::empty(),
                    old(open_outputs).deep_view(),
                );
                &&& final(self).cursor() == scan.pos
                &&& final(open_outputs).deep_view() == scan.pool
                &&& if scan.failed {
                    &&& res.is_err()
                    &&& res.unwrap_err()@ == Failure::UnterminatedLabel
                    &&& final(curr_inputs).deep_view() == old(curr_inputs).deep_view()
                } else {
                    &&& res.is_ok()
                    &&& final(curr_inputs).deep_view() == scan.taken + old(curr_inputs).deep_view()
                }
            }),
    {
        proof {
            use_type_invariant(&*self);
            self.lemma_cursor_in_bounds();
        }
        let ghost text = self.text();
        let ghost start = self.cursor();
        let ghost pool = open_outputs.deep_view();
        let mut parsed_inputs: Vec<FilterInOut<'buffer>> = Vec::new();
        let mut pad: usize = 0;
        assert(parsed_inputs.deep_view() =~= Seq::<PadRef>::empty());
        loop
            invariant
                self.text() == text,
                text == old(self).text(),
                start == old(self).cursor(),
                pool == old(open_outputs).deep_view(),
                0 <= self.cursor() <= text.len() <= usize::MAX,
                pad == parsed_inputs@.len(),
                pad <= self.cursor(),
                *curr_inputs == *old(curr_inputs),
                input_labels(text, start, Seq::empty(), pool) == input_labels(
                    text,
                    self.cursor(),
                    parsed_inputs.deep_view(),
                    open_outputs.deep_view(),
                ),
            ensures
                self.text() == text,
                *curr_inputs == *old(curr_inputs),
                input_labels(text, start, Seq::empty(), pool) == (InputScan {
                    pos: self.cursor(),
                    taken: parsed_inputs.deep_view(),
                    pool: open_outputs.deep_view(),
                    failed: false,
                }),
            decreases text.len() - self.cursor(),
        {
            let ghost pos = self.cursor();
            let ghost close = scan_to(text, pos + 1, is_byte(CLOSE_BRACKET));
            proof {
                if pos < text.len() {
                    lemma_scan_to_bounds(text, pos + 1, is_byte(CLOSE_BRACKET));
                }
            }
            let name = match self.parse_label() {
                Ok(Some(name)) => name,
                Ok(None) => {
                    break ;
                },
                Err(e) => {
                    return Err(e);
                },
            };
            let ghost before = open_outputs.deep_view();
            let ghost taken = parsed_inputs.deep_view();
            let at = find_label(open_outputs, name);
            let new_input = if at < open_outputs.len() {
                open_outputs.remove(at)
            } else {
                FilterInOut { name: Some(name), pad_idx: pad, filter_ctx: None }
            };
            proof {
                if at < before.len() {
                    assert(before[at as int] == new_input@);
                    assert(open_outputs.deep_view() =~= before.remove(at as int));
                }
                assert(new_input@ == claimed_input(before, name@, taken.len()));
                assert(open_outputs.deep_view() == unclaimed(before, name@));
            }
            parsed_inputs.push(new_input);
            assert(parsed_inputs.deep_view() =~= taken.push(new_input@));
            pad = pad + 1;
            self.skip_ws();
            proof {
                lemma_blanks_end_bounds(text, close + 1);
            }
        }
        let ghost taken = parsed_inputs.deep_view();
        let ghost behind = curr_inputs.deep_view();
        parsed_inputs.append(curr_inputs);
        assert(parsed_inputs.deep_view() =~= taken + behind);
        *curr_inputs = parsed_inputs;
        Ok(())
    }

    /// Connects the input pads of the filter `filt_ctx`, in order, each to
    /// the first pad of `curr_inputs` that is left, as `connect_input`
    /// says.  Pads that are left over when every input has one are one too
    /// many.  Otherwise `curr_inputs` becomes the fresh outputs of the
    /// filter.
    pub fn link_filter_inouts(
        index: usize,
        links: &mut Vec<FilterLink>,
        filt_ctx: &mut FilterContext,
        curr_inputs: &mut Vec<FilterInOut<'buffer>>,
        open_inputs: &mut Vec<FilterInOut<'buffer>>,
    ) -> (res: Result<(), ParseError>)
        ensures
            *final(filt_ctx) == *old(filt_ctx),
            ({
                let linked = connect_inputs(
                    index as nat,
                    old(filt_ctx).index as nat,
                    old(filt_ctx).nb_inputs as nat,
                    0,
                    Linking {
                        links: old(links).deep_view(),
                        curr: old(curr_inputs).deep_view(),
                        open_inputs: old(open_inputs).deep_view(),
                    },
                );
                &&& final(links).deep_view() == linked.links
                &&& final(open_inputs).deep_view() == linked.open_inputs
                &&& if linked.curr.len() > 0 {
                    &&& res.is_err()
                    &&& res.unwrap_err()@ == (Failure::TooManyInputs {
                        filter: old(filt_ctx).filt_name@,
                    })
                    &&& final(curr_inputs).deep_view() == linked.curr
                } else {
                    &&& res.is_ok()
                    &&& final(curr_inputs).deep_view() == fresh_outputs(
                        old(filt_ctx).index as nat,
                        old(filt_ctx).nb_outputs as nat,
                    )
                }
            }),
    {
        let ghost start = Linking {
            links: links.deep_view(),
            curr: curr_inputs.deep_view(),
            open_inputs: open_inputs.deep_view(),
        };
        let nb_inputs = filt_ctx.nb_inputs;
        let owner = filt_ctx.index;
        let mut pad: usize = 0;
        while pad < nb_inputs
            invariant
                pad <= nb_inputs,
                connect_inputs(index as nat, owner as nat, nb_inputs as nat, 0, start)
                    == connect_inputs(
                    index as nat,
                    owner as nat,
                    nb_inputs as nat,
                    pad as nat,
                    Linking {
                        links: links.deep_view(),
                        curr: curr_inputs.deep_view(),
                        open_inputs: open_inputs.deep_view(),
                    },
                ),
            decreases nb_inputs - pad,
        {
            let ghost before = Linking {
                links: links.deep_view(),
                curr: curr_inputs.deep_view(),
                open_inputs: open_inputs.deep_view(),
            };
            let p = if curr_inputs.len() == 0 {
                FilterInOut { name: None, pad_idx: 0, filter_ctx: None }
            } else {
                curr_inputs.remove(0)
            };
            proof {
                if before.curr.len() > 0 {
                    assert(before.curr[0] == p@);
                    assert(curr_inputs.deep_view() =~= before.curr.remove(0));
                }
            }
            match p.filter_ctx {
                Some(from) => {
                    let link = FilterLink {
                        from_filter: from,
                        from_pad_idx: p.pad_idx,
                        to_filter: index,
                        to_pad_idx: pad,
                    };
                    links.push(link);
                    assert(links.deep_view() =~= before.links.push(link@));
                },
                None => {
                    let waiting = FilterInOut {
                        name: p.name,
                        pad_idx: pad,
                        filter_ctx: Some(owner),
                    };
                    open_inputs.push(waiting);
                    assert(open_inputs.deep_view() =~= before.open_inputs.push(waiting@));
                },
            }
            assert(Linking {
                links: links.deep_view(),
                curr: curr_inputs.deep_view(),
                open_inputs: open_inputs.deep_view(),
            } == connect_input(index as nat, owner as nat, pad as nat, before));
            pad = pad + 1;
        }
        if curr_inputs.len() != 0 {
            return Err(
                ParseError::TooManyInputs { filter: slice_to_vec(filt_ctx.filt_name.as_slice()) },
            );
        }
        let nb_outputs = filt_ctx.nb_outputs;
        let mut out: usize = 0;
        while out < nb_outputs
            invariant
                out <= nb_outputs,
                curr_inputs.deep_view() == fresh_outputs(owner as nat, out as nat),
            decreases nb_outputs - out,
        {
            let ghost before = curr_inputs.deep_view();
            let fresh = FilterInOut { name: None, filter_ctx: Some(owner), pad_idx: out };
            curr_inputs.push(fresh);
            out = out + 1;
            assert(curr_inputs.deep_view() =~= before.push(fresh@));
            assert(before.push(fresh@) =~= fresh_outputs(owner as nat, out as nat));
        }
        Ok(())
    }

    /// Reads the labels behind filter `index`.  Each label takes the first
    /// pad of `curr_inputs`, which holds the outputs of the filter that no
    /// label has taken, and connects it as `attach_output` says.
    ///
    /// Every open input has an owner.
    pub fn parse_outputs(
        &mut self,
        index: usize,
        links: &mut Vec<FilterLink>,
        curr_inputs: &mut Vec<FilterInOut<'buffer>>,
        open_inputs: &mut Vec<FilterInOut<'buffer>>,
        open_outputs: &mut Vec<FilterInOut<'buffer>>,
    ) -> (res: Result<(), ParseError>)
        requires
            all_owned(old(open_inputs).deep_view()),
        ensures
            final(self).text() == old(self).text(),
            ({
                let scan = output_labels(
                    old(self).text(),
                    old(self).cursor(),
                    index as nat,
                    Wiring {
                        links: old(links).deep_view(),
                        curr: old(curr_inputs).deep_view(),
                        open_inputs: old(open_inputs).deep_view(),
                        open_outputs: old(open_outputs).deep_view(),
                    },
                );
                &&& final(self).cursor() == scan.pos
                &&& final(links).deep_view() == scan.wiring.links
                &&& final(curr_inputs).deep_view() == scan.wiring.curr
                &&& final(open_inputs).deep_view() == scan.wiring.open_inputs
                &&& final(open_outputs).deep_view() == scan.wiring.open_outputs
                &&& match scan.failure {
                    Some(failure) => res.is_err() && res.unwrap_err()@ == failure,
                    None => res.is_ok(),
                }
            }),
    {
        proof {
            use_type_invariant(&*self);
            self.lemma_cursor_in_bounds();
        }
        let ghost text = self.text();
        let ghost start = self.cursor();
        let ghost first = Wiring {
            links: links.deep_view(),
            curr: curr_inputs.deep_view(),
            open_inputs: open_inputs.deep_view(),
            open_outputs: open_outputs.deep_view(),
        };
        loop
            invariant
                self.text() == text,
                text == old(self).text(),
                0 <= self.cursor() <= text.len() <= usize::MAX,
                first == (Wiring {
                    links: old(links).deep_view(),
                    curr: old(curr_inputs).deep_view(),
                    open_inputs: old(open_inputs).deep_view(),
                    open_outputs: old(open_outputs).deep_view(),
                }),
                all_owned(open_inputs.deep_view()),
                output_labels(old(self).text(), old(self).cursor(), index as nat, first)
                    == output_labels(
                    text,
                    self.cursor(),
                    index as nat,
                    Wiring {
                        links: links.deep_view(),
                        curr: curr_inputs.deep_view(),
                        open_inputs: open_inputs.deep_view(),
                        open_outputs: open_outputs.deep_view(),
                    },
                ),
            ensures
                self.text() == text,
                output_labels(old(self).text(), old(self).cursor(), index as nat, first)
                    == (OutputScan {
                    pos: self.cursor(),
                    wiring: Wiring {
                        links: links.deep_view(),
                        curr: curr_inputs.deep_view(),
                        open_inputs: open_inputs.deep_view(),
                        open_outputs: open_outputs.deep_view(),
                    },
                    failure: None,
                }),
            decreases text.len() - self.cursor(),
        {
            let ghost pos = self.cursor();
            let ghost close = scan_to(text, pos + 1, is_byte(CLOSE_BRACKET));
            let ghost before = Wiring {
                links: links.deep_view(),
                curr: curr_inputs.deep_view(),
                open_inputs: open_inputs.deep_view(),
                open_outputs: open_outputs.deep_view(),
            };
            proof {
                if pos < text.len() {
                    lemma_scan_to_bounds(text, pos + 1, is_byte(CLOSE_BRACKET));
                }
            }
            let name = match self.parse_label() {
                Ok(Some(name)) => name,
                Ok(None) => {
                    break ;
                },
                Err(e) => {
                    return Err(e);
                },
            };
            if curr_inputs.len() == 0 {
                return Err(ParseError::TooFewOutputs { label: slice_to_vec(name) });
            }
            let mut input = curr_inputs.remove(0);
            assert(before.curr[0] == input@);
            assert(curr_inputs.deep_view() =~= before.curr.remove(0));
            let at = find_label(open_inputs, name);
            if at < open_inputs.len() {
                let open_input = open_inputs.remove(at);
                assert(before.open_inputs[at as int] == open_input@);
                assert(open_inputs.deep_view() =~= before.open_inputs.remove(at as int));
                let in_index = match open_input.filter_ctx {
                    Some(owner) => owner,
                    None => unreached(),
                };
                let link = FilterLink {
                    from_filter: index,
                    from_pad_idx: input.pad_idx,
                    to_filter: in_index,
                    to_pad_idx: open_input.pad_idx,
                };
                links.push(link);
                assert(links.deep_view() =~= before.links.push(link@));
            } else {
                input.name = Some(name);
                open_outputs.push(input);
                assert(open_outputs.deep_view() =~= before.open_outputs.push(input@));
            }
            assert(Wiring {
                links: links.deep_view(),
                curr: curr_inputs.deep_view(),
                open_inputs: open_inputs.deep_view(),
                open_outputs: open_outputs.deep_view(),
            } == attach_output(
                index as nat,
                name@,
                before.curr[0],
                Wiring { curr: before.curr.remove(0), ..before },
            ));
            self.skip_ws();
            proof {
                lemma_blanks_end_bounds(text, close + 1);
            }
        }
        Ok(())
    }
}

} // verus!
