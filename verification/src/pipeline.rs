use vstd::prelude::*;

use crate::byte::clip::{clipper_of, ClipperParams};
use crate::common::{signature, InoutFormat};
use crate::eval::text::{chars_of, lemma_split_on_nonempty, split_on, split_strings, texts};
use crate::eval::{expr_value, parse_usize, EvalError};
use crate::segment::stride::{params_of, ConstSlicerParams, StrideError};

verus! {

/// Options of a run, as read from the command line.
pub struct PipelineArgs {
    pub in_format: Option<InoutFormat>,
    pub out_format: Option<InoutFormat>,
    pub filler: Option<usize>,
    pub cat: Option<usize>,
    pub zip: Option<usize>,
    pub inplace: bool,
    pub cut: Option<String>,
    pub pad: Option<(usize, usize)>,
    pub patch: Option<String>,
    pub width: Option<ConstSlicerParams>,
    pub find: Option<String>,
    pub walk: Option<String>,
    pub slice: Option<String>,
    pub guide: Option<String>,
    pub regex: Option<String>,
    pub extend: Option<String>,
    pub invert: Option<String>,
    pub merge: Option<usize>,
    pub lines: Option<String>,
    pub output: Option<String>,
    pub patch_back: Option<String>,
}

/// A stage of the pipeline.
#[derive(Clone, Debug, PartialEq, Eq)]
pub enum Node {
    // input placeholders
    Cat,
    Zip,
    Inplace,
    // byte filters
    Cut(String),
    Clipper(ClipperParams),
    Patch(String),
    Tee,
    // slicers
    Width(ConstSlicerParams),
    Find(String),
    Slice(String),
    Guide(String),
    Walk(Vec<String>),
    // slice filters
    Regex(String),
    Bridge(String),
    Merge(usize),
    Extend(String),
    Lines(String),
    // drains
    Scatter(String),
    PatchBack(String),
}

/// A stage of the pipeline with its texts taken as character sequences.
pub enum NodeView {
    Cat,
    Zip,
    Inplace,
    Cut(Seq<char>),
    Clipper(ClipperParams),
    Patch(Seq<char>),
    Tee,
    Width(ConstSlicerParams),
    Find(Seq<char>),
    Slice(Seq<char>),
    Guide(Seq<char>),
    Walk(Seq<Seq<char>>),
    Regex(Seq<char>),
    Bridge(Seq<char>),
    Merge(usize),
    Extend(Seq<char>),
    Lines(Seq<char>),
    Scatter(Seq<char>),
    PatchBack(Seq<char>),
}

/// The view of a stage.
#[verifier::opaque]
pub open spec fn node_view(n: &Node) -> NodeView {
    match n {
        Node::Cat => NodeView::Cat,
        Node::Zip => NodeView::Zip,
        Node::Inplace => NodeView::Inplace,
        Node::Cut(s) => NodeView::Cut(s@),
        Node::Clipper(c) => NodeView::Clipper(*c),
        Node::Patch(s) => NodeView::Patch(s@),
        Node::Tee => NodeView::Tee,
        Node::Width(w) => NodeView::Width(*w),
        Node::Find(s) => NodeView::Find(s@),
        Node::Slice(s) => NodeView::Slice(s@),
        Node::Guide(s) => NodeView::Guide(s@),
        Node::Walk(v) => NodeView::Walk(texts(v@)),
        Node::Regex(s) => NodeView::Regex(s@),
        Node::Bridge(s) => NodeView::Bridge(s@),
        Node::Merge(n) => NodeView::Merge(*n),
        Node::Extend(s) => NodeView::Extend(s@),
        Node::Lines(s) => NodeView::Lines(s@),
        Node::Scatter(s) => NodeView::Scatter(s@),
        Node::PatchBack(s) => NodeView::PatchBack(s@),
    }
}

impl View for Node {
    type V = NodeView;

    open spec fn view(&self) -> NodeView {
        node_view(self)
    }
}

/// What a stage consumes and produces.
#[derive(Copy, Clone, Debug, PartialEq, Eq, Structural)]
pub enum NodeClass {
    Placeholder,
    ByteFilter,
    Slicer,
    SegmentFilter,
    Drain,
}

/// The class of a stage.
#[verifier::opaque]
pub open spec fn class_of(n: NodeView) -> NodeClass {
    match n {
        NodeView::Cat | NodeView::Zip | NodeView::Inplace => NodeClass::Placeholder,
        NodeView::Cut(_) | NodeView::Clipper(_) | NodeView::Patch(_) | NodeView::Tee => NodeClass::ByteFilter,
        NodeView::Width(_) | NodeView::Find(_) | NodeView::Slice(_) | NodeView::Guide(_) | NodeView::Walk(_) => NodeClass::Slicer,
        NodeView::Regex(_) | NodeView::Bridge(_) | NodeView::Merge(_) | NodeView::Extend(_) | NodeView::Lines(_) => NodeClass::SegmentFilter,
        NodeView::Scatter(_) | NodeView::PatchBack(_) => NodeClass::Drain,
    }
}

/// Which class of stage may directly follow which: bytes flow into byte
/// filters and slicers, slices into slice filters and drains.
pub open spec fn class_precedes(a: NodeClass, b: NodeClass) -> bool {
    ||| (a == NodeClass::Placeholder || a == NodeClass::ByteFilter) && (b == NodeClass::ByteFilter
        || b == NodeClass::Slicer)
    ||| (a == NodeClass::Slicer || a == NodeClass::SegmentFilter) && (b == NodeClass::SegmentFilter
        || b == NodeClass::Drain)
}

/// Every stage may follow the one before it.
#[verifier::opaque]
pub open spec fn well_ordered(nodes: Seq<NodeView>) -> bool {
    forall|i: int| 0 <= i < nodes.len() - 1 ==> class_precedes(
        class_of(#[trigger] nodes[i]),
        class_of(nodes[i + 1]),
    )
}

impl Node {
    /// The class of the stage.
    pub fn class(&self) -> (r: NodeClass)
        ensures
            r == class_of(self@),
    {
        reveal(class_of);
        reveal(node_view);
        match self {
            Node::Cat => NodeClass::Placeholder,
            Node::Zip => NodeClass::Placeholder,
            Node::Inplace => NodeClass::Placeholder,
            Node::Cut(_) => NodeClass::ByteFilter,
            Node::Clipper(_) => NodeClass::ByteFilter,
            Node::Patch(_) => NodeClass::ByteFilter,
            Node::Tee => NodeClass::ByteFilter,
            Node::Width(_) => NodeClass::Slicer,
            Node::Find(_) => NodeClass::Slicer,
            Node::Slice(_) => NodeClass::Slicer,
            Node::Guide(_) => NodeClass::Slicer,
            Node::Walk(_) => NodeClass::Slicer,
            Node::Regex(_) => NodeClass::SegmentFilter,
            Node::Bridge(_) => NodeClass::SegmentFilter,
            Node::Merge(_) => NodeClass::SegmentFilter,
            Node::Extend(_) => NodeClass::SegmentFilter,
            Node::Lines(_) => NodeClass::SegmentFilter,
            Node::Scatter(_) => NodeClass::Drain,
            Node::PatchBack(_) => NodeClass::Drain,
        }
    }

    /// Whether `next` may directly follow this stage.
    pub fn precedes(&self, next: &Node) -> (r: bool)
        ensures
            r == class_precedes(class_of(self@), class_of(next@)),
    {
        match (self.class(), next.class()) {
            (NodeClass::Placeholder, NodeClass::ByteFilter) => true,
            (NodeClass::Placeholder, NodeClass::Slicer) => true,
            (NodeClass::ByteFilter, NodeClass::ByteFilter) => true,
            (NodeClass::ByteFilter, NodeClass::Slicer) => true,
            (NodeClass::Slicer, NodeClass::SegmentFilter) => true,
            (NodeClass::Slicer, NodeClass::Drain) => true,
            (NodeClass::SegmentFilter, NodeClass::SegmentFilter) => true,
            (NodeClass::SegmentFilter, NodeClass::Drain) => true,
            _ => false,
        }
    }
}

/// Why the options describe no pipeline.
#[derive(Copy, Clone, Debug, PartialEq, Eq)]
pub enum PipelineError {
    /// More than one of `--inplace`, `--cat` and `--zip`.
    ExclusiveInputs,
    /// More than one of `--width`, `--find`, `--walk`, `--slice`, `--guide`.
    ExclusiveSlicers,
    /// Both `--output` and `--patch-back`.
    ExclusiveOutputs,
    /// A filler byte outside `[0, 256)`.
    Filler,
    /// A word size of zero for `--cat` or `--zip`.
    ZeroWordSize,
    /// Stages in an order that does not connect.
    Order,
}

/// Why a `--width` argument was refused.
#[derive(Copy, Clone, Debug, PartialEq, Eq)]
pub enum WidthError {
    /// More than a width and one mapping.
    TooMany,
    /// The width is not a number in `[0, isize::MAX]`.
    Width(EvalError),
    /// The mapping was refused.
    Mapping(StrideError),
}

/// Reads `W[,S..E]`: slices of width `W`, mapped by `S..E` (`s..e` when
/// absent).
pub fn parse_const_slicer_params(s: &str) -> (r: Result<ConstSlicerParams, WidthError>)
    ensures
        split_on(s@, ',', 0, seq![]).len() > 2 ==> r == Err::<ConstSlicerParams, WidthError>(
            WidthError::TooMany,
        ),
        r matches Ok(p) ==> split_on(s@, ',', 0, seq![]).len() <= 2 && expr_value(
            split_on(s@, ',', 0, seq![])[0],
        ) == Some(Ok::<i64, EvalError>(p.pitch as i64)) && p.span > 0,
{
    let v = split_strings(s, ',');
    if v.len() > 2 {
        return Err(WidthError::TooMany);
    }
    proof {
        lemma_split_on_nonempty(s@, ',', 0, seq![]);
        assert(v@[0]@ == split_on(s@, ',', 0, seq![])[0]);
    }
    let pitch = match parse_usize(v[0].as_str()) {
        Ok(p) => p,
        Err(e) => {
            return Err(WidthError::Width(e));
        },
    };
    if pitch > isize::MAX as usize {
        return Err(WidthError::Width(EvalError::OutOfRange));
    }
    let expr = if v.len() == 2 {
        Some(v[1].as_str())
    } else {
        None
    };
    match ConstSlicerParams::from_raw(pitch, expr) {
        Ok(p) => Ok(p),
        Err(e) => Err(WidthError::Mapping(e)),
    }
}

/// A validated chain of stages with its input and output settings.
pub struct Pipeline {
    pub word_size: usize,
    pub filler: u8,
    pub in_format: InoutFormat,
    pub out_format: InoutFormat,
    pub patch_format: InoutFormat,
    pub nodes: Vec<Node>,
}

/// The views of a sequence of stages.
pub open spec fn views(nodes: Seq<Node>) -> Seq<NodeView> {
    nodes.map_values(|n: Node| n@)
}

/// The text of an optional string option.
pub open spec fn text_of(s: Option<String>) -> Option<Seq<char>> {
    match s {
        Some(x) => Some(x@),
        None => None,
    }
}

/// Word size and first stage of the input options, if they are not in
/// conflict.
pub open spec fn input_stage(m: &PipelineArgs) -> Option<(usize, NodeView)> {
    match (m.inplace, m.cat, m.zip) {
        (true, None, None) => Some((1usize, NodeView::Inplace)),
        (false, Some(align), None) => Some((align, NodeView::Cat)),
        (false, None, Some(word)) => Some((word, NodeView::Zip)),
        (false, None, None) => Some((1usize, NodeView::Cat)),
        _ => None,
    }
}

/// The default slicer: 16-byte slices mapped onto themselves.
pub open spec fn default_width() -> ConstSlicerParams {
    let p = params_of(16, 0, 16);
    ConstSlicerParams { margin: (p.0, p.1), open_ended: (false, false), pitch: p.2, span: p.3 }
}

/// The slicer stage of the options, if they are not in conflict.
pub open spec fn slicer_stage(m: &PipelineArgs) -> Option<NodeView> {
    match (m.width, text_of(m.find), text_of(m.walk), text_of(m.slice), text_of(m.guide)) {
        (Some(w), None, None, None, None) => Some(NodeView::Width(w)),
        (None, Some(p), None, None, None) => Some(NodeView::Find(p)),
        (None, None, Some(e), None, None) => Some(NodeView::Walk(split_on(e, ',', 0, seq![]))),
        (None, None, None, Some(e), None) => Some(NodeView::Slice(e)),
        (None, None, None, None, Some(f)) => Some(NodeView::Guide(f)),
        (None, None, None, None, None) => Some(NodeView::Width(default_width())),
        _ => None,
    }
}

/// Whether `--output` names the standard output.
pub open spec fn is_stdout_name(s: Seq<char>) -> bool {
    s.len() == 0 || s == seq!['-']
}

/// Whether the output is written back, and the drain stage, if the output
/// options are not in conflict.
pub open spec fn drain_stage(m: &PipelineArgs) -> Option<(bool, NodeView)> {
    match (text_of(m.output), text_of(m.patch_back)) {
        (Some(f), None) => Some((is_stdout_name(f), NodeView::Scatter(f))),
        (None, Some(c)) => Some((false, NodeView::PatchBack(c))),
        (None, None) => Some((true, NodeView::Scatter(seq!['-']))),
        _ => None,
    }
}

/// The byte filters: cut, padding, patch, and a tee for patching back.
pub open spec fn byte_stages(m: &PipelineArgs) -> Seq<NodeView> {
    opt_text_node(0, m.cut) + pad_stage(m) + opt_text_node(1, m.patch) + tee_stage(m)
}

/// The slice filters: regex, invert, extend, merge, lines.
pub open spec fn segment_stages(m: &PipelineArgs) -> Seq<NodeView> {
    opt_text_node(2, m.regex) + opt_text_node(3, m.invert) + opt_text_node(4, m.extend)
        + merge_stage(m) + opt_text_node(5, m.lines)
}

/// The stages the options describe, when nothing is in conflict.
pub open spec fn stages(m: &PipelineArgs) -> Seq<NodeView> {
    seq![input_stage(m).unwrap().1] + byte_stages(m) + seq![slicer_stage(m).unwrap()]
        + segment_stages(m) + seq![drain_stage(m).unwrap().1]
}

/// The format a signature stands for.
pub open spec fn format_is(f: InoutFormat, sig: Seq<char>) -> bool {
    let s = signature(sig).unwrap();
    f.offset == crate::common::letter_byte(s.0) && f.length == crate::common::letter_byte(s.1)
        && f.body == crate::common::letter_byte(s.2)
}

/// The error the options give, if any, in the order they are checked.
pub open spec fn args_error(m: &PipelineArgs) -> Option<PipelineError> {
    if input_stage(m) is None {
        Some(PipelineError::ExclusiveInputs)
    } else if slicer_stage(m) is None {
        Some(PipelineError::ExclusiveSlicers)
    } else if drain_stage(m) is None {
        Some(PipelineError::ExclusiveOutputs)
    } else if m.filler matches Some(f) && f > 255 {
        Some(PipelineError::Filler)
    } else if input_stage(m).unwrap().0 == 0 {
        Some(PipelineError::ZeroWordSize)
    } else {
        None
    }
}

/// Whether `s` is `-`.
fn is_dash(s: &String) -> (r: bool)
    ensures
        r == (s@ == seq!['-']),
{
    let c = chars_of(s.as_str());
    let r = c.len() == 1 && c[0] == '-';
    assert(r ==> c@ =~= seq!['-']);
    r
}

/// The stage of kind `which` over the text `e`.
pub open spec fn text_node(which: u8, e: Seq<char>) -> NodeView {
    if which == 0 {
        NodeView::Cut(e)
    } else if which == 1 {
        NodeView::Patch(e)
    } else if which == 2 {
        NodeView::Regex(e)
    } else if which == 3 {
        NodeView::Bridge(e)
    } else if which == 4 {
        NodeView::Extend(e)
    } else {
        NodeView::Lines(e)
    }
}

/// The optional stage of kind `which` over an optional text.
pub open spec fn opt_text_node(which: u8, s: Option<String>) -> Seq<NodeView> {
    match text_of(s) {
        Some(e) => seq![text_node(which, e)],
        None => seq![],
    }
}

/// Bytes still flow: the last stage is the input or a byte filter.
pub open spec fn in_byte_phase(s: Seq<NodeView>) -> bool {
    s.len() > 0 && (class_of(s.last()) == NodeClass::Placeholder || class_of(s.last())
        == NodeClass::ByteFilter)
}

/// Slices flow: the last stage is a slicer or a slice filter.
pub open spec fn in_slice_phase(s: Seq<NodeView>) -> bool {
    s.len() > 0 && (class_of(s.last()) == NodeClass::Slicer || class_of(s.last())
        == NodeClass::SegmentFilter)
}

proof fn lemma_class_of_text(which: u8, e: Seq<char>)
    ensures
        class_of(text_node(which, e)) == (if which < 2 {
            NodeClass::ByteFilter
        } else {
            NodeClass::SegmentFilter
        }),
{
    reveal(class_of);
}

proof fn lemma_push_ordered(s: Seq<NodeView>, x: NodeView)
    requires
        well_ordered(s),
        s.len() > 0,
        class_precedes(class_of(s.last()), class_of(x)),
    ensures
        well_ordered(s.push(x)),
{
    reveal(well_ordered);
    let t = s.push(x);
    assert forall|i: int| 0 <= i < t.len() - 1 implies class_precedes(
        class_of(#[trigger] t[i]),
        class_of(t[i + 1]),
    ) by {
        if i < s.len() - 1 {
            assert(t[i] == s[i] && t[i + 1] == s[i + 1]);
        } else {
            assert(t[i] == s.last() && t[i + 1] == x);
        }
    }
}

/// Appends a stage that may follow the last one.
fn push_node(nodes: &mut Vec<Node>, n: Node)
    requires
        well_ordered(views(old(nodes)@)),
        old(nodes)@.len() > 0,
        class_precedes(class_of(views(old(nodes)@).last()), class_of(n@)),
    ensures
        views(final(nodes)@) == views(old(nodes)@).push(n@),
        well_ordered(views(final(nodes)@)),
{
    let ghost before = nodes@;
    let ghost nv = n@;
    nodes.push(n);
    proof {
        assert(views(nodes@) =~= views(before).push(nv));
        lemma_push_ordered(views(before), nv);
    }
}

/// The stage of kind `which` over the text of `x`.
fn make_text_node(which: u8, x: &String) -> (n: Node)
    ensures
        n@ == text_node(which, x@),
{
    proof {
        reveal(node_view);
    }
    match which {
        0 => Node::Cut(x.clone()),
        1 => Node::Patch(x.clone()),
        2 => Node::Regex(x.clone()),
        3 => Node::Bridge(x.clone()),
        4 => Node::Extend(x.clone()),
        _ => Node::Lines(x.clone()),
    }
}

/// Appends the stage of kind `which` where the option is given.
#[verifier::spinoff_prover]
#[verifier::rlimit(100)]
fn push_text(nodes: &mut Vec<Node>, s: &Option<String>, which: u8)
    requires
        which < 6,
        well_ordered(views(old(nodes)@)),
        which < 2 ==> in_byte_phase(views(old(nodes)@)),
        which >= 2 ==> in_slice_phase(views(old(nodes)@)),
    ensures
        views(final(nodes)@) == views(old(nodes)@) + opt_text_node(which, *s),
        well_ordered(views(final(nodes)@)),
        which < 2 ==> in_byte_phase(views(final(nodes)@)),
        which >= 2 ==> in_slice_phase(views(final(nodes)@)),
{
    let ghost before = views(nodes@);
    if let Some(x) = s {
        let n = make_text_node(which, x);
        proof {
            lemma_class_of_text(which, x@);
        }
        push_node(nodes, n);
        assert(views(nodes@) =~= before + opt_text_node(which, *s));
    } else {
        assert(views(nodes@) =~= before + opt_text_node(which, *s));
    }
}

/// The padding stage of the options, if any.
pub open spec fn pad_stage(m: &PipelineArgs) -> Seq<NodeView> {
    match m.pad {
        Some(p) => if p != (0usize, 0usize) {
            seq![NodeView::Clipper(clipper_of(Some(p), Some(0usize), Some(0usize..usize::MAX)))]
        } else {
            seq![]
        },
        None => seq![],
    }
}

/// The tee stage of the options, if any.
pub open spec fn tee_stage(m: &PipelineArgs) -> Seq<NodeView> {
    if m.patch_back is Some {
        seq![NodeView::Tee]
    } else {
        seq![]
    }
}

/// The merge stage of the options, if any.
pub open spec fn merge_stage(m: &PipelineArgs) -> Seq<NodeView> {
    match m.merge {
        Some(t) => seq![NodeView::Merge(t)],
        None => seq![],
    }
}

/// A clipper stage.
fn clipper_node(c: ClipperParams) -> (n: Node)
    ensures
        n@ == NodeView::Clipper(c),
        class_of(n@) == NodeClass::ByteFilter,
{
    proof {
        reveal(node_view);
        reveal(class_of);
    }
    Node::Clipper(c)
}

/// A tee stage.
fn tee_node() -> (n: Node)
    ensures
        n@ == NodeView::Tee,
        class_of(n@) == NodeClass::ByteFilter,
{
    proof {
        reveal(node_view);
        reveal(class_of);
    }
    Node::Tee
}

/// A merge stage.
fn merge_node(t: usize) -> (n: Node)
    ensures
        n@ == NodeView::Merge(t),
        class_of(n@) == NodeClass::SegmentFilter,
{
    proof {
        reveal(node_view);
        reveal(class_of);
    }
    Node::Merge(t)
}

/// The input stage and word size of the options, `None` where they are in
/// conflict.
fn input_node(m: &PipelineArgs) -> (r: Option<(usize, Node)>)
    ensures
        r is None <==> input_stage(m) is None,
        r matches Some(x) ==> (x.0, x.1@) == input_stage(m).unwrap() && class_of(x.1@)
            == NodeClass::Placeholder,
{
    proof {
        reveal(node_view);
        reveal(class_of);
    }
    match (m.inplace, m.cat, m.zip) {
        (true, None, None) => Some((1, Node::Inplace)),
        (false, Some(align), None) => Some((align, Node::Cat)),
        (false, None, Some(word)) => Some((word, Node::Zip)),
        (false, None, None) => Some((1, Node::Cat)),
        _ => None,
    }
}

/// Appends the padding stage where padding is given.
#[verifier::spinoff_prover]
fn push_pad(nodes: &mut Vec<Node>, m: &PipelineArgs)
    requires
        well_ordered(views(old(nodes)@)),
        in_byte_phase(views(old(nodes)@)),
    ensures
        views(final(nodes)@) == views(old(nodes)@) + pad_stage(m),
        well_ordered(views(final(nodes)@)),
        in_byte_phase(views(final(nodes)@)),
{
    let ghost v0 = views(nodes@);
    if let Some(pad) = m.pad {
        if pad.0 != 0 || pad.1 != 0 {
            let c = ClipperParams::from_raw(Some(pad), Some(0), Some(0..usize::MAX));
            push_node(nodes, clipper_node(c));
        }
    }
    assert(views(nodes@) =~= v0 + pad_stage(m));
}

/// Appends the tee stage where the output is patched back.
#[verifier::spinoff_prover]
fn push_tee(nodes: &mut Vec<Node>, m: &PipelineArgs)
    requires
        well_ordered(views(old(nodes)@)),
        in_byte_phase(views(old(nodes)@)),
    ensures
        views(final(nodes)@) == views(old(nodes)@) + tee_stage(m),
        well_ordered(views(final(nodes)@)),
        in_byte_phase(views(final(nodes)@)),
{
    let ghost v0 = views(nodes@);
    if m.patch_back.is_some() {
        push_node(nodes, tee_node());
    }
    assert(views(nodes@) =~= v0 + tee_stage(m));
}

/// Appends the merge stage where a merge threshold is given.
#[verifier::spinoff_prover]
fn push_merge(nodes: &mut Vec<Node>, m: &PipelineArgs)
    requires
        well_ordered(views(old(nodes)@)),
        in_slice_phase(views(old(nodes)@)),
    ensures
        views(final(nodes)@) == views(old(nodes)@) + merge_stage(m),
        well_ordered(views(final(nodes)@)),
        in_slice_phase(views(final(nodes)@)),
{
    let ghost v0 = views(nodes@);
    if let Some(thresh) = m.merge {
        push_node(nodes, merge_node(thresh));
    }
    assert(views(nodes@) =~= v0 + merge_stage(m));
}

/// Appends the byte filters of the options: cut, padding, patch, and a
/// tee where the output is patched back.
#[verifier::spinoff_prover]
fn push_byte_filters(nodes: &mut Vec<Node>, m: &PipelineArgs)
    requires
        well_ordered(views(old(nodes)@)),
        in_byte_phase(views(old(nodes)@)),
    ensures
        views(final(nodes)@) == views(old(nodes)@) + byte_stages(m),
        well_ordered(views(final(nodes)@)),
        in_byte_phase(views(final(nodes)@)),
{
    let ghost v0 = views(nodes@);
    push_text(nodes, &m.cut, 0);
    push_pad(nodes, m);
    push_text(nodes, &m.patch, 1);
    push_tee(nodes, m);
    assert(views(nodes@) =~= v0 + byte_stages(m));
}

/// The slicer stage of the options, `None` where they are in conflict.
fn slicer_node(m: &PipelineArgs) -> (r: Option<Node>)
    ensures
        r is None <==> slicer_stage(m) is None,
        r matches Some(n) ==> n@ == slicer_stage(m).unwrap(),
{
    proof {
        reveal(node_view);
    }
    match (&m.width, &m.find, &m.walk, &m.slice, &m.guide) {
        (Some(width), None, None, None, None) => Some(Node::Width(*width)),
        (None, Some(pattern), None, None, None) => Some(Node::Find(pattern.clone())),
        (None, None, Some(exprs), None, None) => Some(Node::Walk(split_strings(exprs.as_str(), ','))),
        (None, None, None, Some(exprs), None) => Some(Node::Slice(exprs.clone())),
        (None, None, None, None, Some(file)) => Some(Node::Guide(file.clone())),
        (None, None, None, None, None) => {
            match ConstSlicerParams::from_bounds(16, 0, 16) {
                Ok(w) => Some(Node::Width(w)),
                Err(_) => None,
            }
        },
        _ => None,
    }
}

/// Appends the slice filters of the options: regex, invert, extend,
/// merge and lines.
#[verifier::spinoff_prover]
fn push_segment_filters(nodes: &mut Vec<Node>, m: &PipelineArgs)
    requires
        well_ordered(views(old(nodes)@)),
        in_slice_phase(views(old(nodes)@)),
    ensures
        views(final(nodes)@) == views(old(nodes)@) + segment_stages(m),
        well_ordered(views(final(nodes)@)),
        in_slice_phase(views(final(nodes)@)),
{
    let ghost v0 = views(nodes@);
    push_text(nodes, &m.regex, 2);
    push_text(nodes, &m.invert, 3);
    push_text(nodes, &m.extend, 4);
    push_merge(nodes, m);
    push_text(nodes, &m.lines, 5);
    assert(views(nodes@) =~= v0 + segment_stages(m));
}

/// Whether the output is written back, and the drain stage; `None` where
/// the options are in conflict.
fn drain_node(m: &PipelineArgs) -> (r: Option<(bool, Node)>)
    ensures
        r is None <==> drain_stage(m) is None,
        r matches Some(x) ==> (x.0, x.1@) == drain_stage(m).unwrap(),
{
    proof {
        reveal(node_view);
    }
    match (&m.output, &m.patch_back) {
        (Some(file), None) => {
            let stdout = file.as_str().is_empty() || is_dash(file);
            Some((stdout, Node::Scatter(file.clone())))
        },
        (None, Some(command)) => Some((false, Node::PatchBack(command.clone()))),
        (None, None) => {
            let dash = "-".to_owned();
            proof {
                reveal_strlit("-");
                assert("-"@ =~= seq!['-']);
            }
            Some((true, Node::Scatter(dash)))
        },
        _ => None,
    }
}

proof fn lemma_slicer_class(m: &PipelineArgs)
    requires
        slicer_stage(m) is Some,
    ensures
        class_of(slicer_stage(m).unwrap()) == NodeClass::Slicer,
{
    reveal(class_of);
}

proof fn lemma_drain_class(m: &PipelineArgs)
    requires
        drain_stage(m) is Some,
    ensures
        class_of(drain_stage(m).unwrap().1) == NodeClass::Drain,
{
    reveal(class_of);
}

impl Pipeline {
    /// Builds the pipeline the options describe: input, byte filters,
    /// slicer, slice filters and drain, with default formats where none is
    /// given.
    #[verifier::spinoff_prover]
    #[verifier::rlimit(100)]
    pub fn from_args(m: &PipelineArgs) -> (r: Result<Self, PipelineError>)
        ensures
            args_error(m) matches Some(e) ==> r == Err::<Self, PipelineError>(e),
            args_error(m) is None ==> r is Ok,
            r matches Ok(p) ==> views(p.nodes@) == stages(m) && well_ordered(views(p.nodes@)),
            r matches Ok(p) ==> p.word_size == input_stage(m).unwrap().0,
            r matches Ok(p) ==> p.filler == (match m.filler {
                Some(f) => f as u8,
                None => 0u8,
            }),
            r matches Ok(p) ==> (match m.in_format {
                Some(f) => p.in_format == f,
                None => format_is(p.in_format, seq!['b']),
            }),
            r matches Ok(p) ==> (match m.out_format {
                Some(f) => p.out_format == f,
                None => format_is(
                    p.out_format,
                    if m.inplace && drain_stage(m).unwrap().0 {
                        seq!['b']
                    } else {
                        seq!['x', 'x', 'x']
                    },
                ),
            }),
            r matches Ok(p) ==> format_is(p.patch_format, seq!['x', 'x', 'x']),
    {
        let mut nodes: Vec<Node> = Vec::new();
        let (word_size, node) = match input_node(m) {
            Some(x) => x,
            None => {
                return Err(PipelineError::ExclusiveInputs);
            },
        };
        let ghost nv = node@;
        nodes.push(node);
        let ghost head = views(nodes@);
        assert(head =~= seq![nv]);
        assert(well_ordered(head)) by {
            reveal(well_ordered);
        }
        push_byte_filters(&mut nodes, m);
        let ghost bytes = views(nodes@);
        let node = match slicer_node(m) {
            Some(n) => n,
            None => {
                return Err(PipelineError::ExclusiveSlicers);
            },
        };
        proof {
            lemma_slicer_class(m);
        }
        push_node(&mut nodes, node);
        let ghost sliced = views(nodes@);
        assert(in_slice_phase(sliced));
        push_segment_filters(&mut nodes, m);
        let ghost segs = views(nodes@);
        let (written_back, node) = match drain_node(m) {
            Some(x) => x,
            None => {
                return Err(PipelineError::ExclusiveOutputs);
            },
        };
        proof {
            lemma_drain_class(m);
        }
        push_node(&mut nodes, node);
        proof {
            reveal_strlit("b");
            reveal_strlit("xxx");
            assert("b"@ =~= seq!['b']);
            assert("xxx"@ =~= seq!['x', 'x', 'x']);
            assert(views(nodes@) =~= stages(m));
        }
        let in_format = match m.in_format {
            Some(f) => f,
            None => InoutFormat::new("b"),
        };
        let out_format = match m.out_format {
            Some(f) => f,
            None => if m.inplace && written_back {
                InoutFormat::new("b")
            } else {
                InoutFormat::new("xxx")
            },
        };
        let patch_format = InoutFormat::new("xxx");
        let filler: u8 = match m.filler {
            Some(filler) => {
                if filler <= 255 {
                    filler as u8
                } else {
                    return Err(PipelineError::Filler);
                }
            },
            None => 0,
        };
        let pipeline = Pipeline { word_size, filler, in_format, out_format, patch_format, nodes };
        pipeline.validate()?;
        Ok(pipeline)
    }

    /// Checks the word size and that every stage may follow the one before.
    #[verifier::spinoff_prover]
    #[verifier::rlimit(100)]
    pub fn validate(&self) -> (r: Result<(), PipelineError>)
        ensures
            self.word_size == 0 ==> r == Err::<(), PipelineError>(PipelineError::ZeroWordSize),
            self.word_size != 0 && !well_ordered(views(self.nodes@)) ==> r == Err::<
                (),
                PipelineError,
            >(PipelineError::Order),
            r is Ok <==> self.word_size != 0 && well_ordered(views(self.nodes@)),
    {
        if self.word_size == 0 {
            return Err(PipelineError::ZeroWordSize);
        }
        let n = self.nodes.len();
        let mut i: usize = 0;
        while i < n && i + 1 < n
            invariant
                n == self.nodes@.len(),
                self.word_size != 0,
                i <= n,
                forall|k: int| 0 <= k < i && k < n - 1 ==> class_precedes(
                    class_of(#[trigger] views(self.nodes@)[k]),
                    class_of(views(self.nodes@)[k + 1]),
                ),
            decreases n - i,
        {
            let ok = self.nodes[i].precedes(&self.nodes[i + 1]);
            assert(views(self.nodes@)[i as int] == self.nodes@[i as int]@);
            assert(views(self.nodes@)[i + 1] == self.nodes@[i + 1]@);
            if !ok {
                proof {
                    reveal(well_ordered);
                }
                return Err(PipelineError::Order);
            }
            i = i + 1;
        }
        proof {
            reveal(well_ordered);
        }
        Ok(())
    }

    /// The pipeline edits its input in place.
    pub fn is_inplace(&self) -> (r: bool)
        ensures
            r == (self.nodes@.len() > 0 && self.nodes@[0] is Inplace),
    {
        if self.nodes.len() == 0 {
            return false;
        }
        match self.nodes[0] {
            Node::Inplace => true,
            _ => false,
        }
    }
}

} // verus!
