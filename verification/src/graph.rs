//! The values a graph description is parsed into, and their mathematical
//! models.

use vstd::prelude::*;

verus! {

/// Model of a [`FilterInOut`]: a pad that waits to be connected.
pub struct PadRef {
    /// The label the pad was given in the text, if any.
    pub label: Option<Seq<u8>>,
    /// Which pad of its owner this is.
    pub pad_idx: nat,
    /// The index of the filter the pad belongs to, once it is known.
    pub owner: Option<nat>,
}

/// Model of a [`FilterLink`]: output pad `from_pad_idx` of filter
/// `from_filter` feeds input pad `to_pad_idx` of filter `to_filter`.
pub struct Link {
    pub from_filter: nat,
    pub from_pad_idx: nat,
    pub to_filter: nat,
    pub to_pad_idx: nat,
}

/// Model of a [`FilterContext`].
pub struct Filter {
    pub index: nat,
    pub filt_name: Seq<u8>,
    pub inst_name: Seq<u8>,
    pub args: Seq<u8>,
    pub nb_inputs: nat,
    pub nb_outputs: nat,
}

/// Model of a [`ParsedGraph`].
pub struct Graph {
    pub scale_sws_opts: Option<Seq<u8>>,
    pub filters: Seq<Filter>,
    pub links: Seq<Link>,
    pub open_inputs: Seq<PadRef>,
    pub open_outputs: Seq<PadRef>,
}

/// Model of a [`ParseError`].
pub enum Failure {
    UnterminatedDirective,
    UnterminatedLabel,
    UnknownFilter { name: Seq<u8> },
    FilterInitError { name: Seq<u8>, args: Seq<u8> },
    TooManyInputs { filter: Seq<u8> },
    TooFewOutputs { label: Seq<u8> },
    UnexpectedTrailingText { rest: Seq<u8> },
}

/// The bytes behind an optional borrowed slice.
pub open spec fn opt_bytes(o: Option<&[u8]>) -> Option<Seq<u8>> {
    match o {
        Some(s) => Some(s@),
        None => None,
    }
}

/// The mathematical value of an optional index.
pub open spec fn opt_nat(o: Option<usize>) -> Option<nat> {
    match o {
        Some(i) => Some(i as nat),
        None => None,
    }
}

/// What is known of the graph as a whole while its text is read.
#[derive(Debug)]
pub struct FilterGraph<'buffer> {
    /// The options that a leading `sws_flags=...;` directive hands down to
    /// every `scale` filter that names no flags of its own.
    pub scale_sws_opts: Option<&'buffer [u8]>,
}

impl<'buffer> View for FilterGraph<'buffer> {
    type V = Option<Seq<u8>>;

    open spec fn view(&self) -> Option<Seq<u8>> {
        opt_bytes(self.scale_sws_opts)
    }
}

impl<'buffer> Default for FilterGraph<'buffer> {
    fn default() -> (g: Self)
        ensures
            g@.is_none(),
    {
        FilterGraph { scale_sws_opts: None }
    }
}

/// One filter instance of the graph.
#[derive(Debug)]
pub struct FilterContext {
    /// Position of the filter among the filters of the text, from 0.
    pub index: usize,
    /// The kind of filter, as the registry knows it.
    pub filt_name: Vec<u8>,
    /// The name of this instance.
    pub inst_name: Vec<u8>,
    /// The argument text the instance was made with.
    pub args: Vec<u8>,
    /// How many input pads the instance has.
    pub nb_inputs: usize,
    /// How many output pads the instance has.
    pub nb_outputs: usize,
}

impl View for FilterContext {
    type V = Filter;

    open spec fn view(&self) -> Filter {
        Filter {
            index: self.index as nat,
            filt_name: self.filt_name@,
            inst_name: self.inst_name@,
            args: self.args@,
            nb_inputs: self.nb_inputs as nat,
            nb_outputs: self.nb_outputs as nat,
        }
    }
}

impl DeepView for FilterContext {
    type V = Filter;

    open spec fn deep_view(&self) -> Filter {
        self@
    }
}

impl Default for FilterContext {
    fn default() -> (f: Self)
        ensures
            f@ == (Filter {
                index: 0,
                filt_name: Seq::empty(),
                inst_name: Seq::empty(),
                args: Seq::empty(),
                nb_inputs: 0,
                nb_outputs: 0,
            }),
    {
        FilterContext {
            index: 0,
            filt_name: Vec::new(),
            inst_name: Vec::new(),
            args: Vec::new(),
            nb_inputs: 0,
            nb_outputs: 0,
        }
    }
}

/// A directed connection between two pads.
#[derive(Debug, Clone, Copy)]
pub struct FilterLink {
    pub from_filter: usize,
    pub from_pad_idx: usize,
    pub to_filter: usize,
    pub to_pad_idx: usize,
}

impl View for FilterLink {
    type V = Link;

    open spec fn view(&self) -> Link {
        Link {
            from_filter: self.from_filter as nat,
            from_pad_idx: self.from_pad_idx as nat,
            to_filter: self.to_filter as nat,
            to_pad_idx: self.to_pad_idx as nat,
        }
    }
}

impl DeepView for FilterLink {
    type V = Link;

    open spec fn deep_view(&self) -> Link {
        self@
    }
}

/// A pad that is not connected yet.
#[derive(Debug, Clone, Copy)]
pub struct FilterInOut<'buffer> {
    /// The label of the pad, if the text gave it one.
    pub name: Option<&'buffer [u8]>,
    /// Which pad of the filter this is.
    pub pad_idx: usize,
    /// Index of the filter the pad belongs to; `None` for an input that no
    /// filter has taken yet.
    pub filter_ctx: Option<usize>,
}

impl<'buffer> View for FilterInOut<'buffer> {
    type V = PadRef;

    open spec fn view(&self) -> PadRef {
        PadRef {
            label: opt_bytes(self.name),
            pad_idx: self.pad_idx as nat,
            owner: opt_nat(self.filter_ctx),
        }
    }
}

impl<'buffer> DeepView for FilterInOut<'buffer> {
    type V = PadRef;

    open spec fn deep_view(&self) -> PadRef {
        self@
    }
}

/// What the registry says of a filter name with an argument string.
#[derive(Debug, Clone, Copy, PartialEq, Eq, Structural)]
pub enum RegistryAnswer {
    /// The registry has no filter of that name.
    Unknown,
    /// The filter exists, but no instance could be made with these
    /// arguments.
    Rejected,
    /// An instance was made, with this many pads.
    Pads { inputs: u32, outputs: u32 },
}

/// Why a graph description was not accepted.
#[derive(Debug)]
pub enum ParseError {
    /// The leading `sws_flags=` directive is not closed by `;`.
    UnterminatedDirective,
    /// A link label is not closed by `]`.
    UnterminatedLabel,
    /// The registry knows no filter of this name.
    UnknownFilter { name: Vec<u8> },
    /// The registry could not make an instance of the filter with these
    /// arguments.
    FilterInitError { name: Vec<u8>, args: Vec<u8> },
    /// More inputs stand before the filter than it has input pads.
    TooManyInputs { filter: Vec<u8> },
    /// A label follows the filter, and no output pad is left for it.
    TooFewOutputs { label: Vec<u8> },
    /// What follows a filter is neither `,` nor `;` nor the end.
    UnexpectedTrailingText { rest: Vec<u8> },
}

impl View for ParseError {
    type V = Failure;

    open spec fn view(&self) -> Failure {
        match self {
            ParseError::UnterminatedDirective => Failure::UnterminatedDirective,
            ParseError::UnterminatedLabel => Failure::UnterminatedLabel,
            ParseError::UnknownFilter { name } => Failure::UnknownFilter { name: name@ },
            ParseError::FilterInitError { name, args } => Failure::FilterInitError {
                name: name@,
                args: args@,
            },
            ParseError::TooManyInputs { filter } => Failure::TooManyInputs { filter: filter@ },
            ParseError::TooFewOutputs { label } => Failure::TooFewOutputs { label: label@ },
            ParseError::UnexpectedTrailingText { rest } => Failure::UnexpectedTrailingText {
                rest: rest@,
            },
        }
    }
}

/// The result of reading a whole graph description.
#[derive(Debug)]
pub struct ParsedGraph<'buffer> {
    /// The options of the leading directive, if the text has one.
    pub scale_sws_opts: Option<&'buffer [u8]>,
    /// The filters, in the order of the text.
    pub filters: Vec<FilterContext>,
    /// The links between their pads, in the order they were made.
    pub links: Vec<FilterLink>,
    /// The input pads that nothing in the text feeds.
    pub open_inputs: Vec<FilterInOut<'buffer>>,
    /// The output pads that nothing in the text takes.
    pub open_outputs: Vec<FilterInOut<'buffer>>,
}

impl<'buffer> View for ParsedGraph<'buffer> {
    type V = Graph;

    open spec fn view(&self) -> Graph {
        Graph {
            scale_sws_opts: opt_bytes(self.scale_sws_opts),
            filters: self.filters.deep_view(),
            links: self.links.deep_view(),
            open_inputs: self.open_inputs.deep_view(),
            open_outputs: self.open_outputs.deep_view(),
        }
    }
}

} // verus!
