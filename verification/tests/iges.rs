use physical::iges::{split_iges_lines, split_param_data, IgesWriter};

#[test]
fn split_param_data_works() {
    let data = "110,1.0,2.0,3.0,4.0,5.0,6.0;";
    let lines = split_param_data(data, 64);
    assert_eq!(lines.len(), 1);
    assert!(lines[0].len() <= 64);
}

#[test]
fn split_param_data_chunks_long_data() {
    let lines = split_param_data("abcdefghij", 4);
    assert_eq!(lines, vec!["abcd", "efgh", "ij"]);
}

#[test]
fn split_iges_lines_pads_and_numbers() {
    let lines = split_iges_lines("hello", "S");
    assert_eq!(lines.len(), 1);
    assert_eq!(lines[0].len(), 80);
    assert!(lines[0].starts_with("hello"));
    assert!(lines[0].ends_with("S      1"));
}

#[test]
fn iges_writer_numbers_entities() {
    let mut w = IgesWriter::new();
    let a = w.add_entity(110, 0, "LINE", "110,0.0,0.0,0.0,1.0,0.0,0.0");
    let b = w.add_entity(110, 0, "LINE", "110,1.0,0.0,0.0,1.0,1.0,0.0");
    assert_eq!(a, 1);
    assert_eq!(b, 3);
    let text = w.to_string("part.igs");
    assert!(text.contains("T      1"));
    let first = text.lines().next().unwrap();
    assert!(first.starts_with("1H,,1H;,8Hpart.igs;"));
    assert!(first.ends_with("S      1"));
    assert!(text.contains("S      1G      "));
    for line in text.lines() {
        assert_eq!(line.len(), 80);
    }
}

#[test]
fn iges_hollerith_counts_match_their_text() {
    let w = IgesWriter::new();
    let text = w.to_string("Box");
    assert!(text.starts_with("1H,,1H;,3HBox;"));
    let g: String = text.lines().filter(|l| l.as_bytes()[72] == b'G').map(|l| l[..72].trim_end()).collect();
    assert!(g.starts_with("1H,,1H;,3HBox,19Hphysical.openie.dev,18Hphysical-emit-iges,32,38,6,308,15,3HBox,1.0,"));
    assert!(!text.contains("7HBox"));
    for line in text.lines() {
        assert_eq!(line.len(), 80);
    }
}

#[test]
fn iges_long_start_text_takes_several_lines() {
    let name = "n".repeat(100);
    let text = IgesWriter::new().to_string(&name);
    let s_lines: Vec<&str> = text.lines().filter(|l| l.as_bytes()[72] == b'S').collect();
    assert_eq!(s_lines.len(), 2);
    assert!(s_lines[1].ends_with("S      2"));
    assert!(text.contains("S      2G      "));
}
