use preduce::clang_delta::{ClangDelta, ClangDeltaReducer};
use preduce::clang_format::ClangFormat;
use preduce::clex::{Clex, ClexReducer};
use preduce::finders::Chunks;
use preduce::line_chunks;
use preduce::ranges::RemoveRangesReducer;
use preduce::script::{get_executable, Reducer};
use preduce::topformflat::{Topformflat, TopformflatReducer};
use std::marker::PhantomData;

#[test]
fn get_executable_finds_the_first_executable() {
    assert_eq!(get_executable(&["/nonexistent/preduce/tool", "/bin/sh", "/bin/ls"]), Some("/bin/sh".to_string()));
    assert_eq!(get_executable(&["/nonexistent/preduce/tool"]), None);
    assert_eq!(get_executable(&[]), None);
}

struct ReduceClassTemplateParam;

impl ClangDelta for ReduceClassTemplateParam {
    fn transformation() -> &'static str {
        "reduce-class-template-param"
    }
}

#[test]
fn clang_delta_counts_instances_from_one() {
    let r = ClangDeltaReducer::<ReduceClassTemplateParam>::new();
    assert_eq!(r.index, 1);
    let r = r.next().unwrap();
    assert_eq!(r.index, 2);
    let r = r.next_on_interesting(100).unwrap();
    assert_eq!(r.index, 2);
    let r = r.fast_forward(10).unwrap();
    assert_eq!(r.index, 12);
    let last = ClangDeltaReducer::<ReduceClassTemplateParam> { clang_delta: PhantomData, index: usize::MAX - 1 };
    assert!(last.next().is_none());
    assert_eq!(ReduceClassTemplateParam::transformation(), "reduce-class-template-param");
}

struct RmToks;

impl Clex for RmToks {
    fn clex_command() -> &'static str {
        "rm-toks-1"
    }
}

#[test]
fn clex_counts_instances_from_zero() {
    let r = ClexReducer::<RmToks>::new();
    assert_eq!(r.index, 0);
    let r = r.next().unwrap().next().unwrap();
    assert_eq!(r.index, 2);
    assert_eq!(r.fast_forward(3).unwrap().index, 5);
    assert!(ClexReducer::<RmToks>::reduced(Some(51)));
    assert!(!ClexReducer::<RmToks>::reduced(Some(0)));
    assert!(!ClexReducer::<RmToks>::reduced(None));
}

#[test]
fn clang_format_has_a_single_reduction() {
    assert_eq!(ClangFormat.next(), None);
    assert_eq!(ClangFormat.next_on_interesting(10), Some(ClangFormat));
    assert_eq!(ClangFormat.fast_forward(3), Some(ClangFormat));
}

#[test]
fn line_chunks_halve_the_window() {
    let seed = b"a\nb\nc\nd\n";
    let r = line_chunks::Chunks::new(seed);
    assert_eq!(r, line_chunks::Chunks { num_lines: 4, chunk_size: 4, index: 0 });
    assert_eq!(r.reduce(seed), Some(b"".to_vec()));
    let r = r.next().unwrap();
    assert_eq!(r, line_chunks::Chunks { num_lines: 4, chunk_size: 2, index: 0 });
    assert_eq!(r.reduce(seed), Some(b"c\nd\n".to_vec()));
    let r = r.next().unwrap();
    assert_eq!(r.reduce(seed), Some(b"a\nd\n".to_vec()));
    // After an interesting reduction, the window stays where it is, over
    // the lines that moved up.
    let r = r.next_on_interesting(4).unwrap();
    assert_eq!(r, line_chunks::Chunks { num_lines: 2, chunk_size: 2, index: 0 });
}

#[derive(Debug, PartialEq)]
struct Flatten0;

impl Topformflat for Flatten0 {
    fn flatten() -> u8 {
        0
    }
}

#[test]
fn topformflat_without_the_tool_has_no_reductions() {
    let r = TopformflatReducer::<Flatten0>::new(None, Some(b"a\n"));
    assert_eq!(r, TopformflatReducer::NotFound);
    assert_eq!(r.reduce(b"a\n"), None);
    assert_eq!(Flatten0::flatten(), 0);
}

#[test]
fn topformflat_removes_chunks_of_the_flattened_seed() {
    let flat = b"int a;\nint b;\n";
    let r = TopformflatReducer::<Flatten0>::new(Some("/usr/bin/topformflat".to_string()), Some(flat));
    match &r {
        TopformflatReducer::Found { topformflat, chunks, .. } => {
            assert_eq!(topformflat, "/usr/bin/topformflat");
            assert_eq!(chunks, &RemoveRangesReducer::<Chunks>::new(flat));
            assert_eq!(chunks.chunk_size, 2);
        }
        TopformflatReducer::NotFound => panic!("expected the tool to be found"),
    }
    assert_eq!(r.reduce(flat), Some(b"".to_vec()));
}

#[test]
fn line_chunks_go_on_after_the_window_restarts() {
    let r = line_chunks::Chunks { num_lines: 7, chunk_size: 3, index: 4 };
    let r = r.next_on_interesting(0).unwrap();
    assert_eq!(r, line_chunks::Chunks { num_lines: 4, chunk_size: 3, index: 0 });
    let r = r.next().unwrap();
    assert_eq!(r, line_chunks::Chunks { num_lines: 4, chunk_size: 3, index: 1 });
    assert_eq!(r.reduce(b"a\nb\nc\nd\n"), Some(b"a\n".to_vec()));
    // Fewer lines left than the window spans: exhausted.
    assert_eq!(line_chunks::Chunks { num_lines: 5, chunk_size: 3, index: 0 }.next_on_interesting(0), None);
}
