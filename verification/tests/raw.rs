use mlt::raw::{LogicalEncoding, MortonMeta, RawGeometry, RawStream, RleMeta, StreamMeta};

fn column(num_values: u32, logical: LogicalEncoding) -> RawGeometry {
    RawGeometry {
        meta: RawStream {
            meta: StreamMeta {
                num_values,
                logical,
            },
            data: vec![1, 2, 3],
        },
        items: Vec::new(),
    }
}

#[test]
fn feature_count_plain_stream_is_value_count() {
    assert_eq!(column(7, LogicalEncoding::Plain).feature_count(), 7);
    assert_eq!(column(5, LogicalEncoding::Delta).feature_count(), 5);
    assert_eq!(column(4, LogicalEncoding::ComponentwiseDelta).feature_count(), 4);
    let morton = MortonMeta {
        num_bits: 3,
        coordinate_shift: 0,
    };
    assert_eq!(column(3, LogicalEncoding::MortonDelta(morton)).feature_count(), 3);
}

#[test]
fn feature_count_rle_stream_is_expanded_count() {
    let rle = RleMeta {
        runs: 2,
        num_rle_values: 10,
    };
    assert_eq!(column(4, LogicalEncoding::Rle(rle)).feature_count(), 10);
    assert_eq!(column(4, LogicalEncoding::DeltaRle(rle)).feature_count(), 10);
}
