//! From the text of one filter to a filter instance: what is asked of the
//! registry, and what becomes of its answer.

use crate::graph::{Failure, Filter, FilterContext, FilterGraph, ParseError, RegistryAnswer};
use crate::scanner::{
    is_byte, lemma_scan_to, lemma_scan_to_bounds, scan_to, GraphParser, AT_SIGN, CLOSE_BRACKET,
    COLON, COMMA, EQUALS, OPEN_BRACKET, SEMICOLON,
};
use crate::text::{
    bytes_eq, contains, contains_bytes, decimal, push_bytes, push_decimal, trim, trimmed,
};
use vstd::prelude::*;
use vstd::slice::{slice_subrange, slice_to_vec};

verus! {

/// `_`, which joins the parts of an instance name that the parser makes up.
pub const UNDERSCORE: u8 = 95;

/// The bytes of `scale`, the filter that takes the graph's scaler options.
pub open spec fn scale_name() -> Seq<u8> {
    seq![115u8, 99u8, 97u8, 108u8, 101u8]
}

/// The bytes of `flags`, the option that the graph's scaler options set.
pub open spec fn flags_word() -> Seq<u8> {
    seq![102u8, 108u8, 97u8, 103u8, 115u8]
}

/// The bytes of `Parsed_`, with which a made-up instance name begins.
pub open spec fn parsed_prefix() -> Seq<u8> {
    seq![80u8, 97u8, 114u8, 115u8, 101u8, 100u8, 95u8]
}

/// Model of a [`FilterRequest`].
pub struct Request {
    pub filt_name: Seq<u8>,
    pub inst_name: Seq<u8>,
    pub args: Seq<u8>,
}

/// What the registry is asked to make an instance of.
#[derive(Debug)]
pub struct FilterRequest {
    /// The kind of filter.
    pub filt_name: Vec<u8>,
    /// The name the instance is to have.
    pub inst_name: Vec<u8>,
    /// The argument text for the instance.
    pub args: Vec<u8>,
}

impl View for FilterRequest {
    type V = Request;

    open spec fn view(&self) -> Request {
        Request { filt_name: self.filt_name@, inst_name: self.inst_name@, args: self.args@ }
    }
}

/// The filter name in `name`.  Where `name` holds an `@` that is not its
/// last byte, the filter name is what stands before the first `@`;
/// otherwise it is all of `name`.
pub open spec fn filter_name_of(name: Seq<u8>) -> Seq<u8> {
    let at = scan_to(name, 0, is_byte(AT_SIGN));
    if at + 1 < name.len() {
        name.subrange(0, at)
    } else {
        name
    }
}

/// The instance name for `name` as the filter at `index`.  Where `name`
/// holds an `@` that is not its last byte, the instance is called `name`;
/// otherwise `Parsed_`, `name`, `_` and the index in decimal.
pub open spec fn instance_name_of(name: Seq<u8>, index: nat) -> Seq<u8> {
    let at = scan_to(name, 0, is_byte(AT_SIGN));
    if at + 1 < name.len() {
        name
    } else {
        parsed_prefix() + name + seq![UNDERSCORE] + decimal(index)
    }
}

/// The arguments an instance of `filt_name` is made with.  A `scale` filter
/// whose own arguments do not hold the word `flags` takes the graph's
/// scaler options behind its own, joined by `:` where both sides hold
/// something; any other filter keeps its arguments.
pub open spec fn arguments_of(
    scale_sws_opts: Option<Seq<u8>>,
    filt_name: Seq<u8>,
    args: Seq<u8>,
) -> Seq<u8> {
    if filt_name == scale_name() && !contains_bytes(args, flags_word())
        && scale_sws_opts.is_some() {
        let inherited = scale_sws_opts.unwrap();
        if args.len() == 0 {
            inherited
        } else if inherited.len() == 0 {
            args
        } else {
            args + seq![COLON] + inherited
        }
    } else {
        args
    }
}

/// What the registry is asked for the filter written as `name` with
/// arguments `args`, at position `index` of a graph with these scaler
/// options.
pub open spec fn request_of(
    scale_sws_opts: Option<Seq<u8>>,
    name: Seq<u8>,
    args: Seq<u8>,
    index: nat,
) -> Request {
    Request {
        filt_name: filter_name_of(name),
        inst_name: instance_name_of(name, index),
        args: arguments_of(scale_sws_opts, filter_name_of(name), args),
    }
}

/// What becomes of a request once the registry has answered it.
pub open spec fn instance_of(request: Request, index: nat, answer: RegistryAnswer) -> Result<
    Filter,
    Failure,
> {
    match answer {
        RegistryAnswer::Unknown => Err(Failure::UnknownFilter { name: request.filt_name }),
        RegistryAnswer::Rejected => Err(
            Failure::FilterInitError { name: request.filt_name, args: request.args },
        ),
        RegistryAnswer::Pads { inputs, outputs } => Ok(
            Filter {
                index,
                filt_name: request.filt_name,
                inst_name: request.inst_name,
                args: request.args,
                nb_inputs: inputs as nat,
                nb_outputs: outputs as nat,
            },
        ),
    }
}

/// The model of a filter or of the error that came in its place.
pub open spec fn filter_result(res: Result<FilterContext, ParseError>) -> Result<Filter, Failure> {
    match res {
        Ok(f) => Ok(f@),
        Err(e) => Err(e@),
    }
}

/// Works out what to ask the registry for the filter written as `name`
/// with arguments `args`.
pub fn filter_request(ctx: &FilterGraph, name: &[u8], args: &[u8], index: usize) -> (req:
    FilterRequest)
    ensures
        req@ == request_of(ctx@, name@, args@, index as nat),
{
    let mut at: usize = 0;
    while at < name.len() && name[at] != AT_SIGN
        invariant
            at <= name@.len(),
            scan_to(name@, 0, is_byte(AT_SIGN)) == scan_to(name@, at as int, is_byte(AT_SIGN)),
        decreases name@.len() - at,
    {
        at = at + 1;
    }
    let mut filt_name: Vec<u8> = slice_to_vec(name);
    let mut inst_name: Vec<u8> = Vec::new();
    if at < name.len() && at + 1 != name.len() {
        filt_name = slice_to_vec(slice_subrange(name, 0, at));
        push_bytes(&mut inst_name, name);
        assert(inst_name@ =~= name@);
    } else {
        // `Parsed_`
        inst_name.push(80);
        inst_name.push(97);
        inst_name.push(114);
        inst_name.push(115);
        inst_name.push(101);
        inst_name.push(100);
        inst_name.push(95);
        assert(inst_name@ =~= parsed_prefix());
        push_bytes(&mut inst_name, name);
        inst_name.push(UNDERSCORE);
        push_decimal(&mut inst_name, index);
        assert(inst_name@ =~= parsed_prefix() + name@ + seq![UNDERSCORE] + decimal(index as nat));
    }
    // `scale` and `flags`
    let scale: [u8; 5] = [115, 99, 97, 108, 101];
    let flags: [u8; 5] = [102, 108, 97, 103, 115];
    assert(scale@ =~= scale_name());
    assert(flags@ =~= flags_word());
    let mut full_args: Vec<u8> = slice_to_vec(args);
    if bytes_eq(filt_name.as_slice(), scale.as_slice()) && !contains(args, flags.as_slice()) {
        match ctx.scale_sws_opts {
            Some(inherited) => {
                if args.len() == 0 {
                    full_args = slice_to_vec(inherited);
                } else if inherited.len() != 0 {
                    full_args.push(COLON);
                    push_bytes(&mut full_args, inherited);
                    assert(full_args@ =~= args@ + seq![COLON] + inherited@);
                }
            },
            None => {},
        }
    }
    FilterRequest { filt_name, inst_name, args: full_args }
}

/// Makes the filter instance that `request` stands for, from what the
/// registry answered to it.
pub fn instantiate(request: FilterRequest, index: usize, answer: RegistryAnswer) -> (res: Result<
    FilterContext,
    ParseError,
>)
    ensures
        filter_result(res) == instance_of(request@, index as nat, answer),
{
    match answer {
        RegistryAnswer::Unknown => Err(ParseError::UnknownFilter { name: request.filt_name }),
        RegistryAnswer::Rejected => Err(
            ParseError::FilterInitError { name: request.filt_name, args: request.args },
        ),
        RegistryAnswer::Pads { inputs, outputs } => Ok(
            FilterContext {
                index,
                filt_name: request.filt_name,
                inst_name: request.inst_name,
                args: request.args,
                nb_inputs: inputs as usize,
                nb_outputs: outputs as usize,
            },
        ),
    }
}

/// Whether `b` ends a filter's name: `=`, `,`, `;` and `[` do.
pub open spec fn is_name_end(b: u8) -> bool {
    b == EQUALS || b == COMMA || b == SEMICOLON || b == OPEN_BRACKET
}

/// Whether `b` ends a filter's arguments: `[`, `]`, `,` and `;` do.
pub open spec fn is_args_end(b: u8) -> bool {
    b == OPEN_BRACKET || b == CLOSE_BRACKET || b == COMMA || b == SEMICOLON
}

/// Whether `b` ends a filter's name.
fn ends_name(b: u8) -> (stop: bool)
    ensures
        stop == is_name_end(b),
{
    b == EQUALS || b == COMMA || b == SEMICOLON || b == OPEN_BRACKET
}

/// Whether `b` ends a filter's arguments.
fn ends_args(b: u8) -> (stop: bool)
    ensures
        stop == is_args_end(b),
{
    b == OPEN_BRACKET || b == CLOSE_BRACKET || b == COMMA || b == SEMICOLON
}

/// `is_name_end` as a test to scan with.
pub open spec fn name_end() -> spec_fn(u8) -> bool {
    |b: u8| is_name_end(b)
}

/// `is_args_end` as a test to scan with.
pub open spec fn args_end() -> spec_fn(u8) -> bool {
    |b: u8| is_args_end(b)
}

/// The text of one filter: its name, its arguments, and where it ends.
pub struct FilterText {
    pub name: Seq<u8>,
    pub args: Seq<u8>,
    pub end: int,
}

/// The filter written in `text` at `pos`.  The name runs up to the first of
/// `=`, `,`, `;`, `[` or to the end of the text.  Where `=` follows, the
/// arguments run from behind it up to the first of `[`, `]`, `,`, `;` or to
/// the end; otherwise there are none.  Both are trimmed.
pub open spec fn filter_text(text: Seq<u8>, pos: int) -> FilterText {
    let stop = scan_to(text, pos, name_end());
    if stop < text.len() && text[stop] == EQUALS {
        let end = scan_to(text, stop + 1, args_end());
        FilterText {
            name: trimmed(text.subrange(pos, stop)),
            args: trimmed(text.subrange(stop + 1, end)),
            end,
        }
    } else {
        FilterText { name: trimmed(text.subrange(pos, stop)), args: Seq::empty(), end: stop }
    }
}

/// The text of a filter ends at or behind the place where it begins, and
/// inside the text.
pub proof fn lemma_filter_text_advances(text: Seq<u8>, pos: int)
    requires
        0 <= pos <= text.len(),
    ensures
        pos <= filter_text(text, pos).end <= text.len(),
{
    lemma_scan_to_bounds(text, pos, name_end());
    let stop = scan_to(text, pos, name_end());
    if stop < text.len() {
        lemma_scan_to_bounds(text, stop + 1, args_end());
    }
}

/// What the registry is asked for the filter written in `text` at `pos`.
pub open spec fn written_request(
    scale_sws_opts: Option<Seq<u8>>,
    text: Seq<u8>,
    pos: int,
    index: nat,
) -> Request {
    let written = filter_text(text, pos);
    request_of(scale_sws_opts, written.name, written.args, index)
}

/// Whether `registry` may be asked about every request.
pub open spec fn answers_all<F: Fn(&[u8], &[u8], &[u8]) -> RegistryAnswer>(registry: &F) -> bool {
    forall|filt_name: &[u8], inst_name: &[u8], args: &[u8]|
        registry.requires((filt_name, inst_name, args))
}

/// Whether `answer` is what `registry` gave when it was asked `request`.
pub open spec fn answered<F: Fn(&[u8], &[u8], &[u8]) -> RegistryAnswer>(
    registry: &F,
    request: Request,
    answer: RegistryAnswer,
) -> bool {
    exists|filt_name: &[u8], inst_name: &[u8], args: &[u8]|
        {
            &&& filt_name@ == request.filt_name
            &&& inst_name@ == request.inst_name
            &&& args@ == request.args
            &&& #[trigger] registry.ensures((filt_name, inst_name, args), answer)
        }
}

/// Asks `registry` about `request`.
pub fn ask<F: Fn(&[u8], &[u8], &[u8]) -> RegistryAnswer>(
    registry: &F,
    request: &FilterRequest,
) -> (answer: RegistryAnswer)
    requires
        answers_all(registry),
    ensures
        answered(registry, request@, answer),
{
    registry(request.filt_name.as_slice(), request.inst_name.as_slice(), request.args.as_slice())
}

impl<'buffer> GraphParser<'buffer> {
    /// Reads the filter that is written at the cursor, and makes `filt_ctx`
    /// the instance of it at position `index`.  The cursor ends behind the
    /// filter's text, whatever the registry answers; where the registry
    /// gives no instance, `filt_ctx` stays as it was.
    pub fn parse_filter<F: Fn(&[u8], &[u8], &[u8]) -> RegistryAnswer>(
        &mut self,
        index: usize,
        filt_ctx: &mut FilterContext,
        graph: &mut FilterGraph,
        registry: &F,
    ) -> (res: Result<(), ParseError>)
        requires
            answers_all(registry),
        ensures
            final(self).text() == old(self).text(),
            final(self).cursor() == filter_text(old(self).text(), old(self).cursor()).end,
            *final(graph) == *old(graph),
            exists|answer: RegistryAnswer|
                {
                    &&& #[trigger] answered(
                        registry,
                        written_request(
                            old(graph)@,
                            old(self).text(),
                            old(self).cursor(),
                            index as nat,
                        ),
                        answer,
                    )
                    &&& match instance_of(
                        written_request(
                            old(graph)@,
                            old(self).text(),
                            old(self).cursor(),
                            index as nat,
                        ),
                        index as nat,
                        answer,
                    ) {
                        Ok(filter) => res.is_ok() && final(filt_ctx)@ == filter,
                        Err(failure) => {
                            &&& res.is_err()
                            &&& res.unwrap_err()@ == failure
                            &&& *final(filt_ctx) == *old(filt_ctx)
                        },
                    }
                },
    {
        proof {
            use_type_invariant(&*self);
            self.lemma_cursor_in_bounds();
        }
        let ghost text = self.text();
        let ghost pos = self.cursor();
        let name = self.peek_until_end(ends_name);
        proof {
            lemma_scan_to(text, pos, pos + name@.len(), name_end());
        }
        self.skip(name.len());
        let has_args = match self.peek() {
            Some(b) => b == EQUALS,
            None => false,
        };
        let mut opts: &[u8] = slice_subrange(name, 0, 0);
        if has_args {
            self.skip(1);
            opts = self.peek_until_end(ends_args);
            proof {
                let begin = pos + name@.len() + 1;
                lemma_scan_to(text, begin, begin + opts@.len(), args_end());
            }
            self.skip(opts.len());
        }
        let name = trim(name);
        let opts = trim(opts);
        assert(trimmed(Seq::<u8>::empty()) =~= Seq::<u8>::empty());
        assert(name@ == filter_text(text, pos).name);
        assert(opts@ == filter_text(text, pos).args);
        let ghost request = written_request(graph@, text, pos, index as nat);
        let created = Self::create_filter(graph, name, opts, index, registry);
        let ghost answer = choose|answer: RegistryAnswer|
            {
                &&& #[trigger] answered(registry, request, answer)
                &&& filter_result(created) == instance_of(request, index as nat, answer)
            };
        assert(answered(registry, request, answer));
        match created {
            Ok(filter) => {
                *filt_ctx = filter;
                Ok(())
            },
            Err(e) => Err(e),
        }
    }

    /// Makes the instance at position `index` of the filter written as
    /// `name` with arguments `args`: asks `registry` what `request_of` says,
    /// and makes of its answer what `instance_of` says.
    pub fn create_filter<F: Fn(&[u8], &[u8], &[u8]) -> RegistryAnswer>(
        ctx: &mut FilterGraph,
        name: &[u8],
        args: &[u8],
        index: usize,
        registry: &F,
    ) -> (res: Result<FilterContext, ParseError>)
        requires
            answers_all(registry),
        ensures
            *final(ctx) == *old(ctx),
            exists|answer: RegistryAnswer|
                {
                    &&& #[trigger] answered(
                        registry,
                        request_of(old(ctx)@, name@, args@, index as nat),
                        answer,
                    )
                    &&& filter_result(res) == instance_of(
                        request_of(old(ctx)@, name@, args@, index as nat),
                        index as nat,
                        answer,
                    )
                },
    {
        let request = filter_request(ctx, name, args, index);
        let answer = ask(registry, &request);
        instantiate(request, index, answer)
    }
}

} // verus!
