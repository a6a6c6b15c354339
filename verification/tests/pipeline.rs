use zd::common::{InoutFormat, FMT_BIN, FMT_HEX, FMT_NONE};
use zd::byte::raw::Reader;
use zd::drain::trans::StreamDrain;
use zd::pipeline::{Node, Pipeline, PipelineArgs, PipelineError};
use zd::spawn::SpawnError;
use zd::segment::stride::ConstSlicerParams;

fn empty_args() -> PipelineArgs {
    PipelineArgs {
        in_format: None,
        out_format: None,
        filler: None,
        cat: None,
        zip: None,
        inplace: false,
        cut: None,
        pad: None,
        patch: None,
        width: None,
        find: None,
        walk: None,
        slice: None,
        guide: None,
        regex: None,
        extend: None,
        invert: None,
        merge: None,
        lines: None,
        output: None,
        patch_back: None,
    }
}

#[test]
fn pipeline_defaults() {
    let p = Pipeline::from_args(&empty_args()).unwrap();
    let width = ConstSlicerParams::from_bounds(16, 0, 16).unwrap();
    assert_eq!(p.nodes, vec![Node::Cat, Node::Width(width), Node::Scatter("-".to_string())]);
    assert_eq!(p.word_size, 1);
    assert_eq!(p.filler, 0);
    assert_eq!((p.in_format.offset, p.in_format.length, p.in_format.body), (FMT_NONE, FMT_NONE, FMT_BIN));
    assert_eq!((p.out_format.offset, p.out_format.length, p.out_format.body), (FMT_HEX, FMT_HEX, FMT_HEX));
    assert!(!p.is_inplace());
    assert!(p.validate().is_ok());
}

#[test]
fn pipeline_full_chain() {
    let mut args = empty_args();
    args.zip = Some(4);
    args.cut = Some("0..10".to_string());
    args.pad = Some((3, 5));
    args.walk = Some("4,8".to_string());
    args.regex = Some("ab".to_string());
    args.merge = Some(2);
    args.patch_back = Some("cat".to_string());
    args.filler = Some(10);
    let p = Pipeline::from_args(&args).unwrap();
    assert_eq!(p.word_size, 4);
    assert_eq!(p.filler, 10);
    assert_eq!(p.nodes.len(), 8);
    assert_eq!(p.nodes[0], Node::Zip);
    assert_eq!(p.nodes[1], Node::Cut("0..10".to_string()));
    assert!(matches!(p.nodes[2], Node::Clipper(c) if c.pad == (3, 5) && c.len == usize::MAX));
    assert_eq!(p.nodes[3], Node::Tee);
    assert_eq!(p.nodes[4], Node::Walk(vec!["4".to_string(), "8".to_string()]));
    assert_eq!(p.nodes[5], Node::Regex("ab".to_string()));
    assert_eq!(p.nodes[6], Node::Merge(2));
    assert_eq!(p.nodes[7], Node::PatchBack("cat".to_string()));
}

#[test]
fn pipeline_errors() {
    let mut args = empty_args();
    args.inplace = true;
    args.cat = Some(1);
    assert_eq!(Pipeline::from_args(&args).err(), Some(PipelineError::ExclusiveInputs));

    let mut args = empty_args();
    args.find = Some("ab".to_string());
    args.slice = Some("0..3".to_string());
    assert_eq!(Pipeline::from_args(&args).err(), Some(PipelineError::ExclusiveSlicers));

    let mut args = empty_args();
    args.output = Some("-".to_string());
    args.patch_back = Some("cat".to_string());
    assert_eq!(Pipeline::from_args(&args).err(), Some(PipelineError::ExclusiveOutputs));

    let mut args = empty_args();
    args.filler = Some(256);
    assert_eq!(Pipeline::from_args(&args).err(), Some(PipelineError::Filler));

    let mut args = empty_args();
    args.cat = Some(0);
    assert_eq!(Pipeline::from_args(&args).err(), Some(PipelineError::ZeroWordSize));
}

#[test]
fn pipeline_inplace_writes_binary() {
    let mut args = empty_args();
    args.inplace = true;
    let p = Pipeline::from_args(&args).unwrap();
    assert!(p.is_inplace());
    assert_eq!((p.out_format.offset, p.out_format.length, p.out_format.body), (FMT_NONE, FMT_NONE, FMT_BIN));
}

#[test]
fn pipeline_node_order() {
    assert!(Node::Cat.precedes(&Node::Tee));
    assert!(Node::Tee.precedes(&Node::Find("x".to_string())));
    assert!(!Node::Find("x".to_string()).precedes(&Node::Tee));
    assert!(Node::Merge(1).precedes(&Node::Scatter("-".to_string())));
    assert!(!Node::Cat.precedes(&Node::Scatter("-".to_string())));
    let p = Pipeline {
        word_size: 1,
        filler: 0,
        in_format: InoutFormat::input_default(),
        out_format: InoutFormat::output_default(),
        patch_format: InoutFormat::output_default(),
        nodes: vec![Node::Cat, Node::Merge(1)],
    };
    assert_eq!(p.validate(), Err(PipelineError::Order));
}

/// A reader handing out a pattern a few bytes at a time.
struct PatternReader {
    data: Vec<u8>,
    pos: usize,
}

impl Reader for PatternReader {
    fn read_chunk(&mut self, max: usize) -> std::io::Result<Vec<u8>> {
        let end = std::cmp::min(self.data.len(), self.pos + std::cmp::min(max, 7));
        let v = self.data[self.pos..end].to_vec();
        self.pos = end;
        Ok(v)
    }
}

/// Runs the pipeline the options describe over `inputs` and gathers what
/// it writes.
fn run_pipeline(args: &PipelineArgs, inputs: &[&[u8]]) -> Vec<u8> {
    let pipeline = Pipeline::from_args(args).unwrap();
    let sources: Vec<PatternReader> = inputs.iter().map(|x| PatternReader { data: x.to_vec(), pos: 0 }).collect();
    let mut stream = pipeline.spawn_stream(sources, None, None).unwrap();
    let mut out = Vec::new();
    while let Some(v) = stream.consume_segments().unwrap() {
        out.extend_from_slice(&v);
    }
    out
}

fn binary_out() -> PipelineArgs {
    let mut a = empty_args();
    a.out_format = Some(InoutFormat::new("b"));
    a
}

#[test]
fn test_pipeline() {
    let ten: &[u8] = b"0123456789";

    // nd
    assert_eq!(run_pipeline(&empty_args(), &[b""]), b"");
    // nd --out-format=b
    assert_eq!(run_pipeline(&binary_out(), &[b""]), b"");
    assert_eq!(run_pipeline(&binary_out(), &[ten]), ten);

    // nd --out-format=b --pad=3,5
    let mut a = binary_out();
    a.pad = Some((3, 5));
    assert_eq!(run_pipeline(&a, &[ten]), b"\0\0\00123456789\0\0\0\0\0");
    // nd --out-format=b --pad=3,5 --filler=0x0a
    a.filler = Some(0x0a);
    assert_eq!(run_pipeline(&a, &[ten]), b"\n\n\n0123456789\n\n\n\n\n");

    // nd --out-format=b --cat=4
    let mut a = binary_out();
    a.cat = Some(4);
    assert_eq!(run_pipeline(&a, &[ten, ten]), b"0123456789\0\00123456789\0\0");
    // nd --out-format=b --cat=4 --filler=0x0a
    a.filler = Some(0x0a);
    assert_eq!(run_pipeline(&a, &[ten, ten]), b"0123456789\n\n0123456789\n\n");

    // nd --out-format=b --zip=4
    let mut a = binary_out();
    a.zip = Some(4);
    assert_eq!(run_pipeline(&a, &[ten, ten]), b"012301234567456789\0\089\0\0");
    // nd --out-format=b --zip=4 --filler=0x0a
    a.filler = Some(0x0a);
    assert_eq!(run_pipeline(&a, &[ten, ten]), b"012301234567456789\n\n89\n\n");

    // nd --out-format=b --in-format=x
    let text: &[u8] = b"0004 0004 | 31 32 33 34\n000a 0000 | 61 62 63";
    let mut a = binary_out();
    a.in_format = Some(InoutFormat::new("x"));
    assert_eq!(run_pipeline(&a, &[text]), b"\0\0\0\01234\0\0abc");
    // nd --out-format=b --in-format=x --filler=0x0a
    a.filler = Some(0x0a);
    assert_eq!(run_pipeline(&a, &[text]), b"\n\n\n\n1234\n\nabc");
}

#[test]
fn spawned_pipelines_refuse_what_they_cannot_run() {
    let mut a = binary_out();
    a.slice = Some("s..e".to_string());
    let p = Pipeline::from_args(&a).unwrap();
    let r = p.spawn_stream(Vec::<PatternReader>::new(), None, None);
    assert!(matches!(r, Err(SpawnError::Unsupported)));

    let mut a = binary_out();
    a.patch = Some("patch.txt".to_string());
    let p = Pipeline::from_args(&a).unwrap();
    let r = p.spawn_stream(vec![PatternReader { data: b"ab".to_vec(), pos: 0 }], None, None);
    assert!(matches!(r, Err(SpawnError::MissingFile)));

    let mut a = empty_args();
    a.out_format = Some(InoutFormat::new("d"));
    let p = Pipeline::from_args(&a).unwrap();
    let r = p.spawn_stream(vec![PatternReader { data: b"ab".to_vec(), pos: 0 }], None, None);
    assert!(matches!(r, Err(SpawnError::Format)));
}

#[test]
fn spawned_pipeline_dumps_hex_by_default() {
    let out = run_pipeline(&empty_args(), &[b"The quick brown fox jumps over the lazy dog.\n"]);
    let expected = "\
000000000000 10 | 54 68 65 20 71 75 69 63 6b 20 62 72 6f 77 6e 20 | The quick brown \n\
000000000010 10 | 66 6f 78 20 6a 75 6d 70 73 20 6f 76 65 72 20 74 | fox jumps over t\n\
000000000020 0d | 68 65 20 6c 61 7a 79 20 64 6f 67 2e 0a          | he lazy dog..\n";
    assert_eq!(String::from_utf8(out).unwrap(), expected);
}
