//! The model catalogue and the screen the app opens with.

use vstd::prelude::*;

verus! {

/// One downloadable model file and its published size.
#[derive(Clone, Copy, Debug)]
pub struct ModelSpec {
    pub name: &'static str,
    pub file_name: &'static str,
    pub url: &'static str,
    pub expected_bytes: u64,
}

/// The number of files in the catalogue.
pub const MODEL_COUNT: usize = 6;

/// The catalogue: VLM, its projector, the layout model and the three Melo
/// TTS files, in download order.
pub open spec fn catalogue() -> Seq<ModelSpec> {
    seq![
        ModelSpec {
            name: "VLM",
            file_name: "PaddleOCR-VL-1.6-GGUF.gguf",
            url: "https://huggingface.co/PaddlePaddle/PaddleOCR-VL-1.6-GGUF/resolve/main/PaddleOCR-VL-1.6-GGUF.gguf",
            expected_bytes: 935_769_056,
        },
        ModelSpec {
            name: "MMProj",
            file_name: "PaddleOCR-VL-1.6-GGUF-mmproj.gguf",
            url: "https://huggingface.co/PaddlePaddle/PaddleOCR-VL-1.6-GGUF/resolve/main/PaddleOCR-VL-1.6-GGUF-mmproj.gguf",
            expected_bytes: 881_770_560,
        },
        ModelSpec {
            name: "Layout",
            file_name: "inference.onnx",
            url: "https://huggingface.co/PaddlePaddle/PP-DocLayoutV3_onnx/resolve/main/inference.onnx",
            expected_bytes: 130_502_049,
        },
        ModelSpec {
            name: "Melo TTS (Chinese + English)",
            file_name: "melo-model.onnx",
            url: "https://huggingface.co/csukuangfj/vits-melo-tts-zh_en/resolve/a0d5c6a264c0ef92d70d8661d8cc502d79627cd6/model.onnx",
            expected_bytes: 170_429_550,
        },
        ModelSpec {
            name: "Melo TTS lexicon",
            file_name: "melo-lexicon.txt",
            url: "https://huggingface.co/csukuangfj/vits-melo-tts-zh_en/resolve/a0d5c6a264c0ef92d70d8661d8cc502d79627cd6/lexicon.txt",
            expected_bytes: 6_837_671,
        },
        ModelSpec {
            name: "Melo TTS tokens",
            file_name: "melo-tokens.txt",
            url: "https://huggingface.co/csukuangfj/vits-melo-tts-zh_en/resolve/a0d5c6a264c0ef92d70d8661d8cc502d79627cd6/tokens.txt",
            expected_bytes: 655,
        },
    ]
}

/// The model catalogue.
pub fn models() -> (r: [ModelSpec; MODEL_COUNT])
    ensures
        r@ == catalogue(),
{
    let r = [
        ModelSpec {
            name: "VLM",
            file_name: "PaddleOCR-VL-1.6-GGUF.gguf",
            url: "https://huggingface.co/PaddlePaddle/PaddleOCR-VL-1.6-GGUF/resolve/main/PaddleOCR-VL-1.6-GGUF.gguf",
            expected_bytes: 935_769_056,
        },
        ModelSpec {
            name: "MMProj",
            file_name: "PaddleOCR-VL-1.6-GGUF-mmproj.gguf",
            url: "https://huggingface.co/PaddlePaddle/PaddleOCR-VL-1.6-GGUF/resolve/main/PaddleOCR-VL-1.6-GGUF-mmproj.gguf",
            expected_bytes: 881_770_560,
        },
        ModelSpec {
            name: "Layout",
            file_name: "inference.onnx",
            url: "https://huggingface.co/PaddlePaddle/PP-DocLayoutV3_onnx/resolve/main/inference.onnx",
            expected_bytes: 130_502_049,
        },
        ModelSpec {
            name: "Melo TTS (Chinese + English)",
            file_name: "melo-model.onnx",
            url: "https://huggingface.co/csukuangfj/vits-melo-tts-zh_en/resolve/a0d5c6a264c0ef92d70d8661d8cc502d79627cd6/model.onnx",
            expected_bytes: 170_429_550,
        },
        ModelSpec {
            name: "Melo TTS lexicon",
            file_name: "melo-lexicon.txt",
            url: "https://huggingface.co/csukuangfj/vits-melo-tts-zh_en/resolve/a0d5c6a264c0ef92d70d8661d8cc502d79627cd6/lexicon.txt",
            expected_bytes: 6_837_671,
        },
        ModelSpec {
            name: "Melo TTS tokens",
            file_name: "melo-tokens.txt",
            url: "https://huggingface.co/csukuangfj/vits-melo-tts-zh_en/resolve/a0d5c6a264c0ef92d70d8661d8cc502d79627cd6/tokens.txt",
            expected_bytes: 655,
        },
    ];
    assert(r@ == catalogue());
    r
}

/// The screens the app can open with.
#[derive(Clone, Copy, Debug, PartialEq, Eq, Structural)]
pub enum Screen {
    Download,
    History,
    Capture,
    Recognizing,
    Result,
}

/// A model counts as installed only when its file has the published size.
pub open spec fn is_installed(file_len: Option<u64>, model: ModelSpec) -> bool {
    file_len == Some(model.expected_bytes)
}

/// Every catalogue file is present with its published size.
pub open spec fn all_installed(file_lens: Seq<Option<u64>>) -> bool {
    file_lens.len() == catalogue().len() && forall|i: int|
        0 <= i < catalogue().len() ==> #[trigger] is_installed(file_lens[i], catalogue()[i])
}

/// The first screen: the history once every model file is present with its
/// published size, the download screen otherwise. `file_lens[i]` is the
/// size of the `i`-th catalogue file in the model directory, `None` when it
/// is missing.
pub fn initial_screen(file_lens: &[Option<u64>; MODEL_COUNT]) -> (r: Screen)
    ensures
        r == (if all_installed(file_lens@) {
            Screen::History
        } else {
            Screen::Download
        }),
{
    let specs = models();
    let mut i: usize = 0;
    while i < MODEL_COUNT
        invariant
            specs@ == catalogue(),
            0 <= i <= MODEL_COUNT,
            forall|j: int| 0 <= j < i ==> #[trigger] is_installed(file_lens@[j], catalogue()[j]),
        decreases MODEL_COUNT - i,
    {
        let ok = match file_lens[i] {
            Some(len) => len == specs[i].expected_bytes,
            None => false,
        };
        if !ok {
            assert(!is_installed(file_lens@[i as int], catalogue()[i as int]));
            return Screen::Download;
        }
        i += 1;
    }
    Screen::History
}

/// The system bars' heights in pixels, `(top, bottom)`, from the window
/// height and the content rectangle's top and bottom edges: the edges are
/// clamped into the window; an empty window or content rectangle gives
/// `(0, 0)`.
pub open spec fn inset_pixels(window_height: i32, content_top: i32, content_bottom: i32) -> (int, int) {
    if window_height <= 0 || content_bottom <= content_top {
        (0, 0)
    } else {
        let top = if content_top < 0 {
            0
        } else if content_top > window_height {
            window_height as int
        } else {
            content_top as int
        };
        let bottom_edge = if content_bottom < 0 {
            0
        } else if content_bottom > window_height {
            window_height as int
        } else {
            content_bottom as int
        };
        (top, window_height - bottom_edge)
    }
}

pub fn content_insets(window_height: i32, content_top: i32, content_bottom: i32) -> (r: (i32, i32))
    ensures
        (r.0 as int, r.1 as int) == inset_pixels(window_height, content_top, content_bottom),
{
    if window_height <= 0 || content_bottom <= content_top {
        return (0, 0);
    }
    let top = if content_top < 0 {
        0
    } else if content_top > window_height {
        window_height
    } else {
        content_top
    };
    let bottom_edge = if content_bottom < 0 {
        0
    } else if content_bottom > window_height {
        window_height
    } else {
        content_bottom
    };
    (top, window_height - bottom_edge)
}

} // verus!
