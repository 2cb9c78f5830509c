use foxeye::embed::DEFAULT_OVERLAP;
use foxeye::models::{BGE_LARGE_V1_5, UAE_LARGE_V1};
use foxeye::{split_chunks, CandleEmbedBuilder, ChunkError, ChunkPlan, Model};

fn offsets(n: usize) -> Vec<(usize, usize)> {
    (0..n).map(|i| (i * 2, i * 2 + 1)).collect()
}

#[test]
fn chunks_stride_and_overlap() {
    let offs = offsets(10);
    let c = split_chunks(&offs, 6, 2).unwrap();
    assert_eq!(
        c,
        vec![
            ChunkPlan { first: 0, stride_end: 4, input_end: 6, start: 0, end: 5 },
            ChunkPlan { first: 4, stride_end: 8, input_end: 10, start: 8, end: 13 },
            ChunkPlan { first: 8, stride_end: 10, input_end: 10, start: 16, end: 17 },
        ]
    );
}

#[test]
fn overlap_runs_up_to_the_end() {
    let c = split_chunks(&offsets(5), 4, 2).unwrap();
    assert_eq!(c.len(), 3);
    assert_eq!((c[0].first, c[0].input_end), (0, 4));
    assert_eq!((c[1].first, c[1].input_end), (2, 5));
    assert_eq!((c[2].first, c[2].input_end), (4, 5));
}

#[test]
fn single_chunk_document() {
    let c = split_chunks(&offsets(3), 512, DEFAULT_OVERLAP).unwrap();
    assert_eq!(c.len(), 1);
    assert_eq!(c[0], ChunkPlan { first: 0, stride_end: 3, input_end: 3, start: 0, end: 3 });
}

#[test]
fn chunk_errors() {
    assert_eq!(split_chunks(&offsets(10), 4, 3), Err(ChunkError::BadWindow));
    assert_eq!(split_chunks(&offsets(10), 4, 4), Err(ChunkError::BadWindow));
    assert_eq!(split_chunks(&offsets(1), 512, 52), Err(ChunkError::TooFewTokens));
    assert_eq!(split_chunks(&offsets(0), 512, 52), Err(ChunkError::TooFewTokens));
}

#[test]
fn model_ids() {
    assert_eq!(Model::default(), Model::UaeLargeV1);
    assert_eq!(Model::UaeLargeV1.repo_id(), UAE_LARGE_V1);
    assert_eq!(Model::BgeLargeV15.repo_id(), "BAAI/bge-large-en-v1.5");
    assert_eq!(BGE_LARGE_V1_5, "BAAI/bge-large-en-v1.5");
}

#[test]
fn embed_settings_builder() {
    let b = CandleEmbedBuilder::new();
    assert!(!b.approximate_gelu && b.mean_pooling && !b.normalize && !b.padding);
    assert_eq!(b.overlap, DEFAULT_OVERLAP);
    assert_eq!(b.model, Model::UaeLargeV1);
    let b = b
        .padding(true)
        .model(Model::BgeLargeV15)
        .mean_pooling(false)
        .normalize(true)
        .approximate_gelu(true)
        .device(candle_core::Device::Cpu);
    assert!(b.padding && !b.mean_pooling && b.normalize && b.approximate_gelu);
    assert_eq!(b.model, Model::BgeLargeV15);
    assert_eq!(b.overlap, 52);
    let d = CandleEmbedBuilder::default();
    assert_eq!(d.model, Model::UaeLargeV1);
}
