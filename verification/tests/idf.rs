use physical::idf::{
    drill_hole_fields, hole_type_of_word, pair_placement_lines, placement_fields, plating_of_word, point_fields,
    read_idf_text, side_of_word, unit_of_word, BoardSide, DrillHoleText, HolePlating, HoleType, IdfSection, IdfText,
    IdfUnit, PlacementText,
};

fn sample_idf() -> &'static str {
    ".HEADER\n\
     BOARD_FILE 3.0\n\
     OpenIE 2026-04-03 1.0\n\
     test_board MM\n\
     .END_HEADER\n\
     .BOARD_OUTLINE\n\
     ECAD 1.6\n\
     0 0.0 0.0 0.0\n\
     0 100.0 0.0 0.0\n\
     0 100.0 80.0 0.0\n\
     0 0.0 80.0 0.0\n\
     0 0.0 0.0 0.0\n\
     .END_BOARD_OUTLINE\n\
     .DRILLED_HOLES\n\
     1.0 5.0 5.0 PTH REF1 PIN\n\
     1.0 95.0 5.0 PTH REF2 PIN\n\
     3.2 50.0 40.0 NPTH BOARD MTG\n\
     .END_DRILLED_HOLES\n\
     .PLACEMENT\n\
     SO8 LM358\n\
     U1 25.0 40.0 0.0 TOP\n\
     QFP48 STM32\n\
     U2 60.0 40.0 45.0 TOP\n\
     .END_PLACEMENT\n"
}

fn num(s: &str) -> Option<f64> {
    s.parse().ok()
}

fn outlines(b: &IdfText) -> Vec<(Option<String>, Vec<Vec<String>>)> {
    b.sections
        .iter()
        .filter_map(|s| match s {
            IdfSection::BoardOutline { thickness, point_lines, .. } => Some((thickness.clone(), point_lines.clone())),
            _ => None,
        })
        .collect()
}

fn holes(b: &IdfText) -> Vec<DrillHoleText> {
    let mut r = Vec::new();
    for s in &b.sections {
        if let IdfSection::DrilledHoles { lines, .. } = s {
            for l in lines {
                if let Some(h) = drill_hole_fields(l) {
                    if num(&h.diameter).is_some() && num(&h.x).is_some() && num(&h.y).is_some() {
                        r.push(h);
                    }
                }
            }
        }
    }
    r
}

fn placements(b: &IdfText) -> Vec<PlacementText> {
    let mut r = Vec::new();
    for s in &b.sections {
        if let IdfSection::Placement { lines, .. } = s {
            let ok: Vec<bool> =
                lines.iter().map(|l| l.len() >= 3 && num(&l[1]).is_some() && num(&l[2]).is_some()).collect();
            for k in pair_placement_lines(lines, &ok) {
                r.push(placement_fields(&lines[k], &lines[k + 1]).unwrap());
            }
        }
    }
    r
}

#[test]
fn parse_header() {
    let board = read_idf_text(sample_idf());
    assert_eq!(board.header.board_name, "test_board");
    assert_eq!(board.header.unit, IdfUnit::MM);
    let thickness = outlines(&board)[0].0.as_deref().and_then(num).unwrap_or(1.6);
    assert!((thickness - 1.6).abs() < 0.01);
    assert_eq!(board.header.file_type, "BOARD_FILE");
    assert_eq!(board.header.version.as_deref(), Some("3.0"));
    assert_eq!(board.header.source_system, "OpenIE 2026-04-03 1.0");
}

#[test]
fn lib_parse_board_outline() {
    let board = read_idf_text(sample_idf());
    let outs = outlines(&board);
    assert_eq!(outs.len(), 1);
    let points: Vec<_> = outs[0].1.iter().filter_map(|l| point_fields(l)).collect();
    assert!(points.len() >= 4);
    assert_eq!(points[1].0, "100.0");
    assert_eq!(points[2].1, "80.0");
    assert_eq!(points[0].2.as_deref(), Some("0.0"));
}

#[test]
fn lib_parse_drill_holes() {
    let board = read_idf_text(sample_idf());
    let hs = holes(&board);
    assert_eq!(hs.len(), 3);
    assert_eq!(hs[0].plating, HolePlating::PTH);
    assert_eq!(hs[2].plating, HolePlating::NPTH);
    assert_eq!(hs[2].hole_type, HoleType::Mounting);
    assert_eq!(hs[1].associated_part, "REF2");
}

#[test]
fn parse_placements() {
    let board = read_idf_text(sample_idf());
    let ps = placements(&board);
    assert_eq!(ps.len(), 2);
    assert_eq!(ps[0].reference_designator, "U1");
    assert_eq!(ps[1].reference_designator, "U2");
    assert!((num(&ps[1].rotation).unwrap_or(0.0) - 45.0).abs() < 0.01);
    assert_eq!(ps[1].package_name, "QFP48");
    assert_eq!(ps[1].part_number, "STM32");
}

#[test]
fn empty_idf() {
    let board = read_idf_text(".HEADER\nBOARD_FILE 3.0\nOpenIE\ntest MM\n.END_HEADER\n");
    assert!(outlines(&board).is_empty());
    assert!(holes(&board).is_empty());
    assert!(board.sections.is_empty());
    assert_eq!(board.header.board_name, "test");
}

#[test]
fn side_detection() {
    let board = read_idf_text(sample_idf());
    assert_eq!(placements(&board)[0].side, BoardSide::Top);
}

#[test]
fn idf_words() {
    assert_eq!(unit_of_word("THOU"), IdfUnit::THOU);
    assert_eq!(unit_of_word("MM"), IdfUnit::MM);
    assert_eq!(plating_of_word("PTH"), HolePlating::PTH);
    assert_eq!(plating_of_word("NPTH"), HolePlating::NPTH);
    assert_eq!(hole_type_of_word("MTG"), HoleType::Mounting);
    assert_eq!(hole_type_of_word("TOOL"), HoleType::Tooling);
    assert_eq!(hole_type_of_word("BOARD"), HoleType::Other);
    assert_eq!(side_of_word("BOTTOM"), BoardSide::Bottom);
    assert_eq!(side_of_word("TOP"), BoardSide::Top);
}

#[test]
fn idf_unit_applies_to_later_sections() {
    let text = ".DRILLED_HOLES\n1 2 3 PTH A\n.END_DRILLED_HOLES\n.HEADER\nBOARD_FILE 3.0\nX\nb THOU\n.DRILLED_HOLES\n.END_DRILLED_HOLES\n";
    let board = read_idf_text(text);
    assert_eq!(board.header.unit, IdfUnit::THOU);
    let units: Vec<IdfUnit> = board
        .sections
        .iter()
        .map(|s| match s {
            IdfSection::DrilledHoles { unit, .. } => *unit,
            _ => panic!("only hole sections"),
        })
        .collect();
    assert_eq!(units, vec![IdfUnit::MM, IdfUnit::THOU]);
}

#[test]
fn idf_outline_owner_line_is_taken_even_when_it_is_the_end_marker() {
    // The line after .BOARD_OUTLINE is the owner line, whatever it holds,
    // so the outline runs on to the next end marker.
    let text = ".BOARD_OUTLINE\n.END_BOARD_OUTLINE\n0 1 2\n.END_BOARD_OUTLINE\n";
    let board = read_idf_text(text);
    let outs = outlines(&board);
    assert_eq!(outs.len(), 1);
    assert_eq!(outs[0].0, None);
    assert_eq!(outs[0].1.len(), 1);
}

#[test]
fn idf_placement_pairs_skip_unreadable_lines() {
    let lines: Vec<Vec<String>> = vec![
        vec!["A".into()],
        vec!["P".into(), "N".into()],
        vec!["R1".into(), "x".into(), "2".into(), "0".into()],
        vec!["P2".into(), "N2".into()],
        vec!["R2".into(), "1".into(), "2".into(), "90".into(), "BOTTOM".into()],
    ];
    let ok = vec![false, false, false, true, true];
    let starts = pair_placement_lines(&lines, &ok);
    assert_eq!(starts, vec![3]);
    let p = placement_fields(&lines[3], &lines[4]).unwrap();
    assert_eq!(p.side, BoardSide::Bottom);
    assert_eq!(p.rotation, "90");
    assert!(drill_hole_fields(&vec!["1".into(), "2".into(), "3".into(), "PTH".into()]).is_none());
    assert!(point_fields(&vec!["0".into(), "1".into()]).is_none());
}
