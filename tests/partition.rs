use frame_ingest::frames::{partition, FrameData, VideoMetrics};

fn frame(n: u32, v: &[u32], m: &[u32]) -> FrameData<u32> {
    FrameData { frame_number: n, vertex_data: v.to_vec(), material_data: m.to_vec() }
}

fn sample() -> VideoMetrics<u32> {
    VideoMetrics {
        frame_data: vec![
            frame(3, &[30, 31], &[300]),
            frame(1, &[10], &[100, 101]),
            frame(2, &[], &[200]),
            frame(1, &[11], &[]),
            frame(7, &[70], &[700]),
        ],
    }
}

#[test]
fn partition_orders_by_frame_number_and_batches() {
    let p = partition(&sample(), 2);
    assert_eq!(p.blocks.len(), 3);
    assert_eq!(p.blocks[0].vertex_data, vec![10, 11]);
    assert_eq!(p.blocks[0].material_data, vec![100, 101]);
    assert_eq!(p.blocks[1].vertex_data, vec![30, 31]);
    assert_eq!(p.blocks[1].material_data, vec![200, 300]);
    assert_eq!(p.blocks[2].vertex_data, vec![70]);
    assert_eq!(p.blocks[2].material_data, vec![700]);
}

#[test]
fn partition_is_deterministic() {
    let a = partition(&sample(), 3);
    let b = partition(&sample(), 3);
    assert_eq!(a.blocks.len(), b.blocks.len());
    for (x, y) in a.blocks.iter().zip(b.blocks.iter()) {
        assert_eq!(x.vertex_data, y.vertex_data);
        assert_eq!(x.material_data, y.material_data);
    }
}

#[test]
fn partition_of_nothing_is_empty() {
    let m: VideoMetrics<f32> = VideoMetrics { frame_data: vec![] };
    assert_eq!(partition(&m, 4).blocks.len(), 0);
}

#[test]
fn partition_with_large_batch_makes_one_block() {
    let p = partition(&sample(), usize::MAX);
    assert_eq!(p.blocks.len(), 1);
    assert_eq!(p.blocks[0].vertex_data, vec![10, 11, 30, 31, 70]);
    assert_eq!(p.blocks[0].material_data, vec![100, 101, 200, 300, 700]);
}

#[test]
fn partition_of_float_samples() {
    let m = VideoMetrics {
        frame_data: vec![FrameData { frame_number: 1, vertex_data: vec![1.0f32, 2.0], material_data: vec![0.5f32, 0.5] }],
    };
    let p = partition(&m, 1);
    assert_eq!(p.blocks[0].vertex_data, vec![1.0, 2.0]);
    assert_eq!(p.blocks[0].material_data, vec![0.5, 0.5]);
}

#[test]
fn frame_from_parsed_drops_failed_fields() {
    let f = FrameData::from_parsed(9, &vec![Some(1u8), None, Some(3)], &vec![None, None]);
    assert_eq!(f.frame_number, 9);
    assert_eq!(f.vertex_data, vec![1, 3]);
    assert!(f.material_data.is_empty());
}
