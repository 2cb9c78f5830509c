use vstd::prelude::*;
use crate::models::Model;

verus! {

#[verifier::external_type_specification]
#[verifier::external_body]
pub struct ExDevice(candle_core::Device);

/// Relies on `candle_core::Device::Cpu`: the host processor as a device.
#[verifier::external_body]
fn cpu_device() -> (r: candle_core::Device) {
    candle_core::Device::Cpu
}

/// Settings for loading an embedding model.
#[derive(Debug)]
pub struct CandleEmbedBuilder {
    pub approximate_gelu: bool,
    pub model: Model,
    pub mean_pooling: bool,
    pub normalize: bool,
    pub device: candle_core::Device,
    pub padding: bool,
    pub overlap: usize,
}

impl Default for CandleEmbedBuilder {
    fn default() -> (r: Self)
        ensures
            !r.approximate_gelu && r.model == Model::UaeLargeV1 && r.mean_pooling && !r.normalize
                && !r.padding && r.overlap == DEFAULT_OVERLAP,
    {
        Self::new()
    }
}

impl CandleEmbedBuilder {
    /// Exact GELU, the UAE large model, mean pooling, no normalization, the
    /// CPU, no padding and the default overlap.
    pub fn new() -> (r: Self)
        ensures
            !r.approximate_gelu,
            r.model == Model::UaeLargeV1,
            r.mean_pooling,
            !r.normalize,
            !r.padding,
            r.overlap == DEFAULT_OVERLAP,
    {
        CandleEmbedBuilder {
            approximate_gelu: false,
            model: Model::UaeLargeV1,
            mean_pooling: true,
            normalize: false,
            device: cpu_device(),
            padding: false,
            overlap: DEFAULT_OVERLAP,
        }
    }

    pub fn approximate_gelu(self, val: bool) -> (r: Self)
        ensures
            r == (CandleEmbedBuilder { approximate_gelu: val, ..self }),
    {
        CandleEmbedBuilder { approximate_gelu: val, ..self }
    }

    pub fn model(self, model: Model) -> (r: Self)
        ensures
            r == (CandleEmbedBuilder { model, ..self }),
    {
        CandleEmbedBuilder { model, ..self }
    }

    /// Mean pooling over the tokens when true, else the first token only.
    pub fn mean_pooling(self, pool: bool) -> (r: Self)
        ensures
            r == (CandleEmbedBuilder { mean_pooling: pool, ..self }),
    {
        CandleEmbedBuilder { mean_pooling: pool, ..self }
    }

    /// Divide each embedding by its L2 norm when true.
    pub fn normalize(self, norm: bool) -> (r: Self)
        ensures
            r == (CandleEmbedBuilder { normalize: norm, ..self }),
    {
        CandleEmbedBuilder { normalize: norm, ..self }
    }

    pub fn padding(self, pad: bool) -> (r: Self)
        ensures
            r == (CandleEmbedBuilder { padding: pad, ..self }),
    {
        CandleEmbedBuilder { padding: pad, ..self }
    }

    pub fn device(self, device: candle_core::Device) -> (r: Self)
        ensures
            r == (CandleEmbedBuilder { device, ..self }),
    {
        CandleEmbedBuilder { device, ..self }
    }
}

/// Tokens shared by a chunk with the next one, unless configured otherwise.
pub const DEFAULT_OVERLAP: usize = 52;

/// One chunk of a tokenized document: its own tokens are
/// `first..stride_end`, the model reads tokens `first..input_end`, and the
/// chunk covers characters `start..end`.
#[derive(Debug, Clone, Copy, PartialEq, Eq, Structural)]
pub struct ChunkPlan {
    pub first: usize,
    pub stride_end: usize,
    pub input_end: usize,
    pub start: usize,
    pub end: usize,
}

/// Why a document cannot be chunked.
#[derive(Debug, Clone, Copy, PartialEq, Eq, Structural)]
pub enum ChunkError {
    /// The overlap leaves strides of fewer than two tokens.
    BadWindow,
    /// Fewer than two tokens.
    TooFewTokens,
}

/// Chunks from token `first` on: strides of `size` tokens; each chunk also
/// feeds the model up to `overlap` tokens of what follows it (fewer near the
/// end of the document); its span runs from the start of its first token to the end of the
/// token before its last.
pub open spec fn chunks_from(offs: Seq<(usize, usize)>, size: int, overlap: int, first: int) -> Seq<ChunkPlan>
    decreases offs.len() - first,
{
    if first < 0 || first >= offs.len() || size <= 0 {
        seq![]
    } else {
        let n = offs.len() as int;
        let se = if first + size < n {
            first + size
        } else {
            n
        };
        let ie = if se + overlap < n {
            se + overlap
        } else {
            n
        };
        seq![ChunkPlan {
            first: first as usize,
            stride_end: se as usize,
            input_end: ie as usize,
            start: offs[first].0,
            end: offs[se - 2].1,
        }] + chunks_from(offs, size, overlap, se)
    }
}

/// The chunks of a document whose tokens have character offsets `offs`,
/// for a model that reads `window` tokens at once.
pub open spec fn chunks_of(offs: Seq<(usize, usize)>, window: int, overlap: int) -> Result<Seq<ChunkPlan>, ChunkError> {
    if overlap + 2 > window {
        Err(ChunkError::BadWindow)
    } else if offs.len() < 2 {
        Err(ChunkError::TooFewTokens)
    } else {
        Ok(chunks_from(offs, window - overlap, overlap, 0))
    }
}

/// Splits a tokenized document into chunks; `offsets` holds each token's
/// character range, as the tokenizer reports it.
pub fn split_chunks(offsets: &Vec<(usize, usize)>, window: usize, overlap: usize) -> (r: Result<Vec<ChunkPlan>, ChunkError>)
    ensures
        match chunks_of(offsets@, window as int, overlap as int) {
            Err(e) => r == Err::<Vec<ChunkPlan>, ChunkError>(e),
            Ok(c) => r is Ok && r->Ok_0@ == c && c.len() >= 1,
        },
{
    if overlap >= window || window - overlap < 2 {
        return Err(ChunkError::BadWindow);
    }
    let n = offsets.len();
    if n < 2 {
        return Err(ChunkError::TooFewTokens);
    }
    let size = window - overlap;
    let mut out: Vec<ChunkPlan> = Vec::new();
    let mut first: usize = 0;
    proof {
        assert(out@ + chunks_from(offsets@, size as int, overlap as int, 0) =~= chunks_from(
            offsets@,
            size as int,
            overlap as int,
            0,
        ));
    }
    while first < n
        invariant
            n == offsets@.len() >= 2,
            size >= 2,
            first <= n,
            first == 0 || first >= 2,
            out@ + chunks_from(offsets@, size as int, overlap as int, first as int) == chunks_from(
                offsets@,
                size as int,
                overlap as int,
                0,
            ),
            first > 0 ==> out@.len() >= 1,
        decreases n - first,
    {
        let se = if size < n - first {
            first + size
        } else {
            n
        };
        let ie = if overlap < n - se {
            se + overlap
        } else {
            n
        };
        let c = ChunkPlan {
            first,
            stride_end: se,
            input_end: ie,
            start: offsets[first].0,
            end: offsets[se - 2].1,
        };
        let ghost rest = chunks_from(offsets@, size as int, overlap as int, se as int);
        proof {
            assert(chunks_from(offsets@, size as int, overlap as int, first as int) == seq![c] + rest);
        }
        let ghost before = out@;
        out.push(c);
        proof {
            assert(out@ + rest =~= before + (seq![c] + rest));
        }
        first = se;
    }
    proof {
        assert(chunks_from(offsets@, size as int, overlap as int, first as int) =~= Seq::<ChunkPlan>::empty());
        assert(out@ =~= out@ + Seq::<ChunkPlan>::empty());
    }
    Ok(out)
}

/// Each token's range is ordered and inside a text of `len` characters, and
/// token starts never go backwards.
pub open spec fn offsets_tidy(offs: Seq<(usize, usize)>, len: int) -> bool {
    &&& forall|i: int| 0 <= i < offs.len() ==> (#[trigger] offs[i]).0 <= offs[i].1 <= len
    &&& forall|i: int, j: int| 0 <= i <= j < offs.len() ==> (#[trigger] offs[i]).0 <= (#[trigger] offs[j]).0
}

pub open spec fn chunk_shape(offs: Seq<(usize, usize)>, c: ChunkPlan) -> bool {
    &&& c.first < c.stride_end <= offs.len()
    &&& c.stride_end >= 2
    &&& c.start == offs[c.first as int].0
    &&& c.end == offs[c.stride_end - 2].1
}

proof fn lemma_chunks_shape(offs: Seq<(usize, usize)>, size: int, overlap: int, first: int)
    requires
        size >= 2,
        2 <= offs.len() <= usize::MAX,
        first == 0 || first >= 2,
    ensures
        forall|k: int| 0 <= k < chunks_from(offs, size, overlap, first).len()
            ==> chunk_shape(offs, #[trigger] chunks_from(offs, size, overlap, first)[k]),
        forall|k: int| 0 <= k && k + 1 < chunks_from(offs, size, overlap, first).len()
            ==> (#[trigger] chunks_from(offs, size, overlap, first)[k]).stride_end == chunks_from(offs, size, overlap, first)[k].first + size,
    decreases offs.len() - first,
{
    if 0 <= first < offs.len() {
        let n = offs.len() as int;
        let se = if first + size < n { first + size } else { n };
        lemma_chunks_shape(offs, size, overlap, se);
        let rest = chunks_from(offs, size, overlap, se);
        let all = chunks_from(offs, size, overlap, first);
        assert forall|k: int| 0 < k < all.len() implies all[k] == rest[k - 1] by {}
        assert(all[0].first == first && all[0].stride_end == se);
        assert(chunk_shape(offs, all[0]));
        if se == n {
            assert(rest.len() == 0);
        } else {
            assert(all[0].stride_end == all[0].first + size);
        }
        assert forall|k: int| 0 <= k && k + 1 < all.len() implies (#[trigger] all[k]).stride_end == all[k].first + size by {
            assert(all.len() == rest.len() + 1);
            if k > 0 {
                assert(all[k] == rest[k - 1]);
                assert(rest[k - 1].stride_end == rest[k - 1].first + size);
            } else {
                assert(rest.len() > 0);
                assert(se < n);
            }
        }
    }
}

/// After a successful split a document has at least one chunk; each chunk
/// covers `start..end` with `end` inside the text, and when the tokenizer's
/// offsets are tidy and the chunk has two or more tokens of its own (every
/// chunk but the last has a full stride), `start <= end` too.
pub proof fn lemma_chunk_spans(offs: Seq<(usize, usize)>, window: int, overlap: int, len: int, k: int)
    requires
        offs.len() <= usize::MAX,
        chunks_of(offs, window, overlap) is Ok,
        offsets_tidy(offs, len),
        0 <= k < chunks_of(offs, window, overlap)->Ok_0.len(),
    ensures
        chunks_of(offs, window, overlap)->Ok_0.len() >= 1,
        ({
            let c = chunks_of(offs, window, overlap)->Ok_0[k];
            &&& c.start <= len
            &&& c.end <= len
            &&& k + 1 < chunks_of(offs, window, overlap)->Ok_0.len() ==> c.stride_end >= c.first + 2
            &&& c.stride_end >= c.first + 2 ==> c.start <= c.end
        }),
{
    let size = window - overlap;
    lemma_chunks_shape(offs, size, overlap, 0);
    let cs = chunks_from(offs, size, overlap, 0);
    assert(cs.len() >= 1);
    let c = cs[k];
    assert(chunk_shape(offs, c));
    assert(offs[c.first as int].0 <= offs[c.first as int].1);
    assert(offs[c.stride_end - 2].0 <= offs[c.stride_end - 2].1);
    if c.stride_end >= c.first + 2 {
        assert(offs[c.first as int].0 <= offs[c.stride_end - 2].0);
    }
}

} // verus!
