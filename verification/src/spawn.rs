use vstd::prelude::*;

use crate::byte::cat::CatStream;
use crate::byte::clip::ClipStream;
use crate::byte::cut::CutStream;
use crate::byte::patch::PatchStream;
use crate::byte::raw::{RawStream, Reader};
use crate::byte::text::{GaplessTextStream, TextStream};
use crate::byte::zip::ZipStream;
use crate::byte::patch::is_record_format;
use crate::byte::ByteStream;
use crate::common::{letter_byte, InoutFormat};
use crate::drain::trans::{StreamDrain, TransparentDrain};
use crate::either::Either;
use crate::eval::text::chars_of;
use crate::pipeline::{is_stdout_name, Node, Pipeline};
use crate::segment::bridge::BridgeStream;
use crate::segment::exact::ExactMatchSlicer;
use crate::segment::extend::ExtendStream;
use crate::segment::guided::GuidedSlicer;
use crate::segment::merge::MergeStream;
use crate::segment::regex::RegexSlicer;
use crate::segment::stride::{stride_params_ok, ConstSlicer};
use crate::drain::trans::slice_format_of;
use crate::params::BLOCK_SIZE;
use crate::segment::walk::{walk_expr, WalkSlicer};
use crate::segment::SegmentStream;

verus! {

/// An input read through the input format: raw bytes, text records, or
/// gapless text records.
pub type Parsed<R> = Either<RawStream<R>, Either<TextStream<RawStream<R>>, GaplessTextStream<RawStream<R>>>>;

/// The inputs concatenated, zipped, or the one input edited in place.
pub type Joined<R> = Either<CatStream<Parsed<R>>, Either<ZipStream<Parsed<R>>, Parsed<R>>>;

/// The stream after the optional cut.
pub type CutStage<R> = Either<Joined<R>, CutStream<Joined<R>>>;

/// The stream after the optional padding and clipping.
pub type ClipStage<R> = Either<CutStage<R>, ClipStream<CutStage<R>>>;

/// The stream after the optional patch.
pub type PatchStage<R> = Either<ClipStage<R>, PatchStream<ClipStage<R>, RawStream<R>>>;

/// The stream sliced by width, by a pattern, by walking, or by a guide.
pub type Sliced<R> = Either<
    Either<ConstSlicer<PatchStage<R>>, ExactMatchSlicer<PatchStage<R>>>,
    Either<WalkSlicer<PatchStage<R>>, GuidedSlicer<PatchStage<R>, RawStream<R>>>,
>;

/// The slices after the optional regular expression.
pub type RegexStage<R> = Either<Sliced<R>, RegexSlicer<Sliced<R>>>;

/// The slices after the optional inversion.
pub type BridgeStage<R> = Either<RegexStage<R>, BridgeStream<RegexStage<R>>>;

/// The slices after the optional extension.
pub type ExtendStage<R> = Either<BridgeStage<R>, ExtendStream<BridgeStage<R>>>;

/// The slices after the optional merge.
pub type MergeStage<R> = Either<ExtendStage<R>, MergeStream<ExtendStage<R>>>;

/// The whole pipeline: its slices written in the output format.
pub type Spawned<R> = TransparentDrain<MergeStage<R>>;

/// Why a pipeline could not be set up.
#[derive(Copy, Clone, Debug, PartialEq, Eq)]
pub enum SpawnError {
    /// The stages are not in the order a pipeline has.
    Order,
    /// A word size of zero.
    WordSize,
    /// No input to edit in place.
    NoInput,
    /// The input or output format is not one the stages read or write.
    Format,
    /// The inputs cannot be zipped.
    Zip,
    /// A cut, slice-mapping or walk expression was refused.
    Expression,
    /// A width out of the range the slicer works in.
    Width,
    /// A search pattern was refused.
    Pattern,
    /// A stage needs a file that was not given.
    MissingFile,
    /// A stage this library does not provide (tee, range slices, line
    /// filters, patching back, output to files).
    Unsupported,
}

/// Raw binary input: no offsets, no lengths.
pub open spec fn is_binary_format(f: InoutFormat) -> bool {
    f.offset == letter_byte('n') && f.length == letter_byte('n') && f.body == letter_byte('b')
}

/// Whether a file name stands for stdout.
fn is_stdout(s: &str) -> (r: bool)
    ensures
        r == is_stdout_name(s@),
{
    let c = chars_of(s);
    if c.len() == 0 {
        return true;
    }
    if c.len() == 1 && c[0] == '-' {
        assert(c@ =~= seq!['-']);
        return true;
    }
    assert(c@.len() > 0 && !(c@ =~= seq!['-']) ==> c@ != seq!['-']);
    false
}

/// Where the stage after the optional clipper stands.
pub open spec fn slicer_at(nodes: Seq<Node>) -> int {
    if nodes[1] is Clipper {
        2
    } else {
        1
    }
}

/// The stages of a pipeline that builds whatever its binary inputs hold:
/// `cat` (or `zip` over at least one input with a word size within a
/// block), an optional clipper, slices of a fixed width the slicer
/// accepts, an optional merge, and output to stdout.
pub open spec fn plain_pipeline(nodes: Seq<Node>, inputs: nat, word: usize) -> bool {
    let n = nodes.len();
    let k = slicer_at(nodes);
    let m = if k + 1 < n && nodes[k + 1] is Merge {
        k + 2
    } else {
        k + 1
    };
    &&& n >= 3
    &&& nodes[0] is Cat || (nodes[0] is Zip && inputs > 0 && word <= BLOCK_SIZE)
    &&& k < n
    &&& nodes[k] matches Node::Width(p) && stride_params_ok(p.margin, p.pitch, p.span)
    &&& m == n - 1
    &&& nodes[m] matches Node::Scatter(f) && is_stdout_name(f@)
}


/// Where the optional clipper stands: after the optional cut.
pub open spec fn clip_at(nodes: Seq<Node>) -> int {
    if nodes[1] is Cut {
        2
    } else {
        1
    }
}

/// Where the optional patch stands: after the optional clipper.
pub open spec fn patch_at(nodes: Seq<Node>) -> int {
    if nodes[clip_at(nodes)] is Clipper {
        clip_at(nodes) + 1
    } else {
        clip_at(nodes)
    }
}

/// Where the slicer stands: after the optional patch.
pub open spec fn slice_at(nodes: Seq<Node>) -> int {
    if nodes[patch_at(nodes)] is Patch {
        patch_at(nodes) + 1
    } else {
        patch_at(nodes)
    }
}

/// Where the optional bridge stands: after the optional regular
/// expression, itself right after the slicer.
pub open spec fn bridge_at(nodes: Seq<Node>) -> int {
    if nodes[slice_at(nodes) + 1] is Regex {
        slice_at(nodes) + 2
    } else {
        slice_at(nodes) + 1
    }
}

/// Where the optional extension stands: after the optional bridge.
pub open spec fn extend_at(nodes: Seq<Node>) -> int {
    if nodes[bridge_at(nodes)] is Bridge {
        bridge_at(nodes) + 1
    } else {
        bridge_at(nodes)
    }
}

/// Where the optional merge stands: after the optional extension.
pub open spec fn merge_at(nodes: Seq<Node>) -> int {
    if nodes[extend_at(nodes)] is Extend {
        extend_at(nodes) + 1
    } else {
        extend_at(nodes)
    }
}

/// An input read through the input format from `src`: raw bytes padded
/// with `filler` to a multiple of `word` for a binary format, else text
/// records.
pub open spec fn parsed_from<R: Reader>(p: Parsed<R>, src: R, binary: bool, filler: u8, word: usize) -> bool {
    match p {
        Either::Left(raw) => binary && raw.reader() == src && raw.filler() == filler && raw.align() == word,
        Either::Right(Either::Left(_)) => !binary,
        Either::Right(Either::Right(g)) => !binary && g.upstream().reader() == src,
    }
}

/// The inputs joined by the first stage: concatenated, zipped in words of
/// `word` bytes, or the last one alone for in-place editing.
pub open spec fn joined_from<R: Reader>(
    j: Joined<R>,
    node: Node,
    sources: Seq<R>,
    binary: bool,
    filler: u8,
    word: usize,
) -> bool {
    let inputs_ok = |ins: Seq<Parsed<R>>|
        ins.len() == sources.len() && forall|i: int|
            0 <= i < ins.len() ==> parsed_from(#[trigger] ins[i], sources[i], binary, filler, word);
    match j {
        Either::Left(c) => node is Cat && inputs_ok(c.inputs()),
        Either::Right(Either::Left(z)) => node is Zip && z.word() == word && inputs_ok(z.inputs()),
        Either::Right(Either::Right(p)) => node is Inplace && sources.len() > 0 && parsed_from(
            p,
            sources.last(),
            binary,
            filler,
            word,
        ),
    }
}

/// The slicer the stage `node` names, over the stream before it.
pub open spec fn sliced_by<R: Reader>(sl: Sliced<R>, node: Node, guide: Option<R>) -> bool {
    match sl {
        Either::Left(Either::Left(_)) => node is Width,
        Either::Left(Either::Right(_)) => node is Find,
        Either::Right(Either::Left(w)) => (node matches Node::Walk(ex) && w.exprs().len() == ex@.len()
            && forall|k: int|
            0 <= k < ex@.len() ==> walk_expr(ex@[k]@) == Some(#[trigger] w.exprs()[k]@)),
        Either::Right(Either::Right(g)) => node is Guide && guide == Some(g.guide().reader()),
    }
}

/// The stream a slicer reads.
pub open spec fn slicer_input<R: Reader>(sl: Sliced<R>) -> PatchStage<R> {
    match sl {
        Either::Left(Either::Left(c)) => c.upstream(),
        Either::Left(Either::Right(e)) => e.upstream(),
        Either::Right(Either::Left(w)) => w.upstream(),
        Either::Right(Either::Right(g)) => g.upstream(),
    }
}

/// A clip stream as the clipper `p` sets it up with filler `filler`.
pub open spec fn clipped_by<S: ByteStream>(c: ClipStream<S>, p: crate::byte::clip::ClipperParams, filler: u8) -> bool {
    &&& c.filler() == filler
    &&& c.remaining() == p.len
    &&& c.head_fill() == if p.pad.0 > p.clip.0 {
        p.pad.0 - p.clip.0
    } else {
        0
    }
    &&& c.to_skip() == if p.clip.0 > p.pad.0 {
        p.clip.0 - p.pad.0
    } else {
        0
    }
    &&& c.tail_fill() == if p.pad.1 > p.clip.1 {
        p.pad.1 - p.clip.1
    } else {
        0
    }
    &&& c.to_strip() == if p.clip.1 > p.pad.1 {
        p.clip.1 - p.pad.1
    } else {
        0
    }
}

/// The stream before the slicer: the joined inputs, then the stages the
/// nodes name, each over the one before.
#[verifier::opaque]
pub open spec fn bytes_built<R: Reader>(
    ps: PatchStage<R>,
    nodes: Seq<Node>,
    sources: Seq<R>,
    binary: bool,
    filler: u8,
    word: usize,
) -> bool {
    let cs = match ps {
        Either::Left(c) => c,
        Either::Right(p) => p.upstream(),
    };
    let ks = match cs {
        Either::Left(k) => k,
        Either::Right(c) => c.upstream(),
    };
    let js = match ks {
        Either::Left(j) => j,
        Either::Right(k) => k.upstream(),
    };
    &&& (nodes[patch_at(nodes)] is Patch <==> ps is Right)
    &&& (nodes[clip_at(nodes)] is Clipper <==> cs is Right)
    &&& (cs matches Either::Right(c) ==> (nodes[clip_at(nodes)] matches Node::Clipper(p) && clipped_by(
        c,
        p,
        filler,
    )))
    &&& (nodes[1] is Cut <==> ks is Right)
    &&& joined_from(js, nodes[0], sources, binary, filler, word)
}

/// The pipeline built: the stages the nodes name, in their order, each
/// over the one before, from the inputs `sources` to the drain.
#[verifier::opaque]
pub open spec fn built<R: Reader>(
    d: Spawned<R>,
    nodes: Seq<Node>,
    sources: Seq<R>,
    guide: Option<R>,
    binary: bool,
    filler: u8,
    word: usize,
) -> bool {
    let ms = d.source();
    let es = match ms {
        Either::Left(e) => e,
        Either::Right(m) => m.source(),
    };
    let bs = match es {
        Either::Left(b) => b,
        Either::Right(x) => x.source(),
    };
    let rs = match bs {
        Either::Left(r) => r,
        Either::Right(b) => b.source(),
    };
    let sl = match rs {
        Either::Left(s) => s,
        Either::Right(x) => x.source(),
    };
    &&& (nodes[merge_at(nodes)] is Merge <==> ms is Right)
    &&& (ms matches Either::Right(m) ==> (nodes[merge_at(nodes)] matches Node::Merge(t)
        && m.pile().threshold() == t))
    &&& (if nodes[merge_at(nodes)] is Merge {
        merge_at(nodes) + 1
    } else {
        merge_at(nodes)
    }) + 1 == nodes.len()
    &&& (nodes[extend_at(nodes)] is Extend <==> es is Right)
    &&& (nodes[bridge_at(nodes)] is Bridge <==> bs is Right)
    &&& (nodes[slice_at(nodes) + 1] is Regex <==> rs is Right)
    &&& (rs matches Either::Right(x) ==> (nodes[slice_at(nodes) + 1] matches Node::Regex(p)
        && x.pattern() == p@))
    &&& sliced_by(sl, nodes[slice_at(nodes)], guide)
    &&& bytes_built(slicer_input(sl), nodes, sources, binary, filler, word)
}

impl Pipeline {
    /// An input through the input format.
    fn parse_source<R: Reader>(&self, src: R) -> (r: Result<Parsed<R>, SpawnError>)
        requires
            self.word_size > 0,
        ensures
            r matches Ok(p) ==> p.wf() && p.taken().len() == 0,
            r matches Ok(p) ==> parsed_from(
                p,
                src,
                is_binary_format(self.in_format),
                self.filler,
                self.word_size,
            ),
            is_binary_format(self.in_format) ==> r is Ok,
            !is_binary_format(self.in_format) && !is_record_format(self.in_format) ==> r
                == Err::<Parsed<R>, SpawnError>(SpawnError::Format),
    {
        let raw = RawStream::new(src, self.word_size, self.filler);
        if self.in_format.is_binary() {
            Ok(Either::Left(raw))
        } else if self.in_format.is_gapless() {
            match GaplessTextStream::new(raw, &self.in_format) {
                Ok(s) => Ok(Either::Right(Either::Right(s))),
                Err(_) => Err(SpawnError::Format),
            }
        } else {
            match TextStream::new(raw, self.filler, &self.in_format) {
                Ok(s) => Ok(Either::Right(Either::Left(s))),
                Err(_) => Err(SpawnError::Format),
            }
        }
    }

    /// Builds the byte stages over the inputs `sources`, up to the slicer:
    /// the stream and where the slicer stands.
    fn build_bytes<R: Reader>(&self, sources: Vec<R>, patch: Option<R>) -> (r: Result<
        (PatchStage<R>, usize),
        SpawnError,
    >)
        requires
            self.word_size > 0,
            self.nodes@.len() >= 2,
        ensures
            r matches Ok(x) ==> x.0.wf() && x.1 == slice_at(self.nodes@) && bytes_built(
                x.0,
                self.nodes@,
                sources@,
                is_binary_format(self.in_format),
                self.filler,
                self.word_size,
            ),
            plain_pipeline(self.nodes@, sources@.len(), self.word_size) && is_binary_format(
                self.in_format,
            ) ==> (r matches Ok(x) && x.1 == slicer_at(self.nodes@)),
    {
        let ghost plain = plain_pipeline(self.nodes@, sources@.len(), self.word_size)
            && is_binary_format(self.in_format);
        let ghost count = sources@.len();
        let nodes = &self.nodes;
        let n = nodes.len();
        let ghost src0 = sources@;
        let mut sources = sources;
        let mut parsed: Vec<Parsed<R>> = Vec::new();
        while sources.len() > 0
            invariant
                src0.len() == count,
                sources@ == src0.subrange(parsed@.len() as int, count as int),
                forall|i: int|
                    0 <= i < parsed@.len() ==> parsed_from(
                        #[trigger] parsed@[i],
                        src0[i],
                        is_binary_format(self.in_format),
                        self.filler,
                        self.word_size,
                    ),
                self.word_size > 0,
                n == self.nodes@.len(),
                n >= 2,
                forall|i: int| 0 <= i < parsed@.len() ==> (#[trigger] parsed@[i]).wf(),
                forall|i: int| 0 <= i < parsed@.len() ==> (#[trigger] parsed@[i]).taken().len() == 0,
                parsed@.len() + sources@.len() == count,
                plain ==> is_binary_format(self.in_format),
            decreases sources@.len(),
        {
            let src = sources.remove(0);
            let p = self.parse_source(src)?;
            parsed.push(p);
            proof {
                assert(sources@ =~= src0.subrange(parsed@.len() as int, count as int));
            }
        }
        let joined: Joined<R> = match &nodes[0] {
            Node::Cat => Either::Left(CatStream::new(parsed)),
            Node::Zip => match ZipStream::new(parsed, self.word_size) {
                Ok(z) => Either::Right(Either::Left(z)),
                Err(_) => {
                    return Err(SpawnError::Zip);
                },
            },
            Node::Inplace => match parsed.pop() {
                Some(p) => Either::Right(Either::Right(p)),
                None => {
                    return Err(SpawnError::NoInput);
                },
            },
            _ => {
                return Err(SpawnError::Order);
            },
        };
        let mut i: usize = 1;
        let cut: CutStage<R> = match &nodes[i] {
            Node::Cut(exprs) => match CutStream::new(joined, exprs.as_str()) {
                Ok(c) => {
                    i = i + 1;
                    Either::Right(c)
                },
                Err(_) => {
                    return Err(SpawnError::Expression);
                },
            },
            _ => Either::Left(joined),
        };
        if i >= n {
            return Err(SpawnError::Order);
        }
        let clip: ClipStage<R> = match &nodes[i] {
            Node::Clipper(params) => {
                i = i + 1;
                Either::Right(ClipStream::new(cut, params, self.filler))
            },
            _ => Either::Left(cut),
        };
        if i >= n {
            return Err(SpawnError::Order);
        }
        let patched: PatchStage<R> = match &nodes[i] {
            Node::Patch(_) => {
                let p = match patch {
                    Some(p) => p,
                    None => {
                        return Err(SpawnError::MissingFile);
                    },
                };
                match PatchStream::new(clip, RawStream::new(p, 1, 0), &self.patch_format) {
                    Ok(s) => {
                        i = i + 1;
                        Either::Right(s)
                    },
                    Err(_) => {
                        return Err(SpawnError::Format);
                    },
                }
            },
            _ => Either::Left(clip),
        };
        proof {
            reveal(bytes_built);
        }
        Ok((patched, i))
    }

    /// Builds the stages of the pipeline over the inputs `sources`; `patch`
    /// and `guide` are the files the patch and guide stages read.
    pub fn spawn_stream<R: Reader>(&self, sources: Vec<R>, patch: Option<R>, guide: Option<R>) -> (r: Result<
        Spawned<R>,
        SpawnError,
    >)
        ensures
            self.nodes@.len() < 2 ==> r == Err::<Spawned<R>, SpawnError>(SpawnError::Order),
            self.nodes@.len() >= 2 && self.word_size == 0 ==> r == Err::<Spawned<R>, SpawnError>(
                SpawnError::WordSize,
            ),
            r matches Ok(d) ==> d.wf(),
            r matches Ok(d) ==> built(
                d,
                self.nodes@,
                sources@,
                guide,
                is_binary_format(self.in_format),
                self.filler,
                self.word_size,
            ),
            plain_pipeline(self.nodes@, sources@.len(), self.word_size) && self.word_size > 0
                && is_binary_format(self.in_format) && slice_format_of(self.out_format) is Some
                ==> r is Ok,
    {
        let ghost plain = plain_pipeline(self.nodes@, sources@.len(), self.word_size)
            && is_binary_format(self.in_format) && slice_format_of(self.out_format) is Some;
        let ghost count = sources@.len();
        let nodes = &self.nodes;
        let n = nodes.len();
        if n < 2 {
            return Err(SpawnError::Order);
        }
        if self.word_size == 0 {
            return Err(SpawnError::WordSize);
        }
        let (patched, i) = self.build_bytes(sources, patch)?;
        let mut i = i;
        if i >= n {
            return Err(SpawnError::Order);
        }
        let mut pad: usize = 0;
        let sliced: Sliced<R> = match &nodes[i] {
            Node::Width(params) => {
                if !params.is_sliceable() {
                    return Err(SpawnError::Width);
                }
                pad = params.pitch;
                Either::Left(Either::Left(ConstSlicer::new(patched, params)))
            },
            Node::Find(pattern) => match ExactMatchSlicer::new(patched, pattern.as_str()) {
                Ok(s) => Either::Left(Either::Right(s)),
                Err(_) => {
                    return Err(SpawnError::Pattern);
                },
            },
            Node::Walk(exprs) => match WalkSlicer::new(patched, exprs.as_slice()) {
                Ok(s) => Either::Right(Either::Left(s)),
                Err(_) => {
                    return Err(SpawnError::Expression);
                },
            },
            Node::Guide(_) => match guide {
                Some(g) => Either::Right(Either::Right(GuidedSlicer::new(patched, RawStream::new(g, 1, 0)))),
                None => {
                    return Err(SpawnError::MissingFile);
                },
            },
            Node::Tee | Node::Slice(_) => {
                return Err(SpawnError::Unsupported);
            },
            _ => {
                return Err(SpawnError::Order);
            },
        };
        i = i + 1;
        if i >= n {
            return Err(SpawnError::Order);
        }
        let regex: RegexStage<R> = match &nodes[i] {
            Node::Regex(pattern) => match RegexSlicer::new(sliced, pattern.as_str()) {
                Ok(s) => {
                    i = i + 1;
                    Either::Right(s)
                },
                Err(_) => {
                    return Err(SpawnError::Pattern);
                },
            },
            _ => Either::Left(sliced),
        };
        if i >= n {
            return Err(SpawnError::Order);
        }
        let bridged: BridgeStage<R> = match &nodes[i] {
            Node::Bridge(exprs) => match BridgeStream::new(regex, exprs.as_str()) {
                Ok(s) => {
                    i = i + 1;
                    Either::Right(s)
                },
                Err(_) => {
                    return Err(SpawnError::Expression);
                },
            },
            _ => Either::Left(regex),
        };
        if i >= n {
            return Err(SpawnError::Order);
        }
        let extended: ExtendStage<R> = match &nodes[i] {
            Node::Extend(exprs) => match ExtendStream::new(bridged, exprs.as_str()) {
                Ok(s) => {
                    i = i + 1;
                    Either::Right(s)
                },
                Err(_) => {
                    return Err(SpawnError::Expression);
                },
            },
            _ => Either::Left(bridged),
        };
        if i >= n {
            return Err(SpawnError::Order);
        }
        let merged: MergeStage<R> = match &nodes[i] {
            Node::Merge(thresh) => {
                i = i + 1;
                Either::Right(MergeStream::new(extended, *thresh))
            },
            _ => Either::Left(extended),
        };
        if i >= n {
            return Err(SpawnError::Order);
        }
        if i + 1 != n {
            return Err(
                match &nodes[i] {
                    Node::Lines(_) | Node::PatchBack(_) => SpawnError::Unsupported,
                    _ => SpawnError::Order,
                },
            );
        }
        match &nodes[i] {
            Node::Scatter(file) => {
                if !is_stdout(file.as_str()) {
                    return Err(SpawnError::Unsupported);
                }
            },
            Node::PatchBack(_) => {
                return Err(SpawnError::Unsupported);
            },
            _ => {
                return Err(SpawnError::Order);
            },
        }
        match TransparentDrain::new(merged, 0, &self.out_format, pad) {
            Some(d) => {
                proof {
                    reveal(built);
                }
                Ok(d)
            },
            None => Err(SpawnError::Format),
        }
    }
}

} // verus!
