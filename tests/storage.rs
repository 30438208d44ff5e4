use frame_ingest::decode::{keep_parsed, split_fields};
use frame_ingest::frames::FrameData;
use rusqlite::Connection;

fn decode(text: &str) -> Vec<f32> {
    let parsed: Vec<Option<f32>> = split_fields(text).iter().map(|t| t.parse::<f32>().ok()).collect();
    keep_parsed(&parsed)
}

#[test]
fn stored_row_reads_back_as_frame() {
    let conn = Connection::open_in_memory().unwrap();
    conn.execute(
        "CREATE TABLE video_metrics (frame_number INTEGER, vertex_data TEXT, material_data TEXT)",
        [],
    )
    .unwrap();
    conn.execute(
        "INSERT INTO video_metrics VALUES (1, '1.0,2.0', '0.5,0.5')",
        [],
    )
    .unwrap();
    let mut stmt = conn
        .prepare("SELECT frame_number, vertex_data, material_data FROM video_metrics")
        .unwrap();
    let rows: Vec<FrameData<f32>> = stmt
        .query_map([], |row| {
            let v: String = row.get(1)?;
            let m: String = row.get(2)?;
            Ok(FrameData { frame_number: row.get(0)?, vertex_data: decode(&v), material_data: decode(&m) })
        })
        .unwrap()
        .collect::<Result<Vec<_>, _>>()
        .unwrap();
    assert_eq!(rows.len(), 1);
    assert_eq!(rows[0].frame_number, 1);
    assert_eq!(rows[0].vertex_data, vec![1.0, 2.0]);
    assert_eq!(rows[0].material_data, vec![0.5, 0.5]);
}
