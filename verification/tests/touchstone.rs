use physical::touchstone::{
    apply_option_word, cell_order, cell_sources, default_options, n_ports, read_touchstone_text, touchstone_ports,
    unit_from_upper, write_touchstone_text, FrequencyUnit, OptionSettings, ParamType, SParamFormat, TouchstoneText,
};

fn sample_s2p() -> &'static str {
    "! 2-port S-parameter data\n\
     # GHz S RI R 50\n\
     1.0  0.9 -0.1  0.05 0.02  0.05 0.02  0.85 -0.15\n\
     2.0  0.7 -0.3  0.1  0.05  0.1  0.05  0.65 -0.25\n\
     3.0  0.3 -0.5  0.2  0.1   0.2  0.1   0.4  -0.4\n"
}

fn sample_s1p() -> &'static str {
    "! 1-port antenna\n\
     # MHz S DB R 50\n\
     900  -2.5  45.0\n\
     915  -15.0  10.0\n\
     930  -3.0  -30.0\n"
}

fn counts(t: &TouchstoneText) -> Vec<usize> {
    t.data.iter().map(|ws| ws.iter().filter(|w| w.parse::<f64>().is_ok()).count()).collect()
}

fn multiplier(u: FrequencyUnit) -> f64 {
    match u {
        FrequencyUnit::Hz => 1.0,
        FrequencyUnit::KHz => 1e3,
        FrequencyUnit::MHz => 1e6,
        FrequencyUnit::GHz => 1e9,
    }
}

#[test]
fn parse_s2p_basic() {
    let data = read_touchstone_text(sample_s2p());
    assert_eq!(touchstone_ports(&counts(&data)), 2);
    assert_eq!(data.options.unit, FrequencyUnit::GHz);
    assert_eq!(data.options.format, SParamFormat::RealImaginary);
    assert_eq!(data.impedances.last().unwrap().parse::<f64>().unwrap(), 50.0);
    assert_eq!(data.data.len(), 3);
}

#[test]
fn parse_s2p_frequencies() {
    let data = read_touchstone_text(sample_s2p());
    let m = multiplier(data.options.unit);
    let f: Vec<f64> = data.data.iter().map(|ws| ws[0].parse::<f64>().unwrap() * m).collect();
    assert!((f[0] - 1e9).abs() < 1.0);
    assert!((f[1] - 2e9).abs() < 1.0);
    assert!((f[2] - 3e9).abs() < 1.0);
}

#[test]
fn parse_s1p_db_format() {
    let data = read_touchstone_text(sample_s1p());
    assert_eq!(touchstone_ports(&counts(&data)), 1);
    assert_eq!(data.options.format, SParamFormat::DecibelAngle);
    assert_eq!(data.data.len(), 3);
}

#[test]
fn comments_preserved() {
    let data = read_touchstone_text(sample_s2p());
    assert!(!data.comments.is_empty());
    assert!(data.comments[0].contains("2-port"));
}

#[test]
fn write_roundtrip() {
    let data = read_touchstone_text(sample_s2p());
    let points: Vec<(String, Vec<(String, String)>)> = data
        .data
        .iter()
        .map(|ws| {
            let cells = ws[1..].chunks(2).map(|c| (c[0].clone(), c[1].clone())).collect();
            (ws[0].clone(), cells)
        })
        .collect();
    let text = write_touchstone_text(&data.comments, data.options, "50", &points);
    let reparsed = read_touchstone_text(&text);
    assert_eq!(reparsed.data.len(), data.data.len());
    assert_eq!(touchstone_ports(&counts(&reparsed)), touchstone_ports(&counts(&data)));
}

#[test]
fn written_text_exact() {
    let options = OptionSettings {
        unit: FrequencyUnit::MHz,
        format: SParamFormat::MagnitudeAngle,
        param_type: ParamType::Z,
    };
    let points = vec![("1.5".to_string(), vec![("0.1".to_string(), "-2".to_string())])];
    let text = write_touchstone_text(&vec!["hello".to_string()], options, "75", &points);
    assert_eq!(text, "! hello\n! Generated by OpenIE\n# MHZ Z MA R 75\n1.5  0.1  -2\n");
}

#[test]
fn read_gives_back_written_words() {
    let options = OptionSettings {
        unit: FrequencyUnit::KHz,
        format: SParamFormat::RealImaginary,
        param_type: ParamType::Y,
    };
    let points = vec![
        ("10".to_string(), vec![("1".to_string(), "2".to_string()), ("3".to_string(), "4".to_string())]),
        ("20".to_string(), vec![]),
    ];
    let text = write_touchstone_text(&vec!["a b".to_string(), "".to_string()], options, "50", &points);
    let r = read_touchstone_text(&text);
    assert_eq!(r.comments, vec!["a b".to_string(), "".to_string(), "Generated by OpenIE".to_string()]);
    assert_eq!(r.options, options);
    assert_eq!(r.impedances, vec!["50".to_string()]);
    assert_eq!(r.data, vec![vec!["10", "1", "2", "3", "4"], vec!["20"]]);
}

#[test]
fn impedance_follows_r_in_any_case() {
    let r = read_touchstone_text("# r 75 Hz\n#R\n");
    assert_eq!(r.impedances, vec!["75".to_string()]);
    assert_eq!(r.options.unit, FrequencyUnit::Hz);
    assert!(r.data.is_empty());
}

#[test]
fn blank_and_indented_lines() {
    let r = read_touchstone_text("\n   \n  ! note  \n  1 2 3\n");
    assert_eq!(r.comments, vec!["note".to_string()]);
    assert_eq!(r.data, vec![vec!["1", "2", "3"]]);
    assert_eq!(r.options, default_options());
}

#[test]
fn port_count_thresholds() {
    assert_eq!(n_ports(0), 1);
    assert_eq!(n_ports(2), 1);
    assert_eq!(n_ports(3), 2);
    assert_eq!(n_ports(8), 2);
    assert_eq!(n_ports(9), 3);
    assert_eq!(n_ports(18), 3);
    assert_eq!(n_ports(19), 4);
    assert_eq!(n_ports(40), 4);
    assert_eq!(touchstone_ports(&vec![]), 1);
    assert_eq!(touchstone_ports(&vec![0, 0]), 1);
    assert_eq!(touchstone_ports(&vec![0, 9, 3]), 2);
}

#[test]
fn matrix_cells_follow_file_order_while_values_last() {
    let m = cell_sources(2, 5);
    assert_eq!(m, vec![vec![Some(0), None], vec![Some(2), None]]);
    let m = cell_sources(2, 8);
    assert_eq!(m, vec![vec![Some(0), Some(4)], vec![Some(2), Some(6)]]);
    let m = cell_sources(3, 18);
    assert_eq!(m[0], vec![Some(0), Some(2), Some(4)]);
    assert_eq!(m[1], vec![Some(6), Some(8), Some(10)]);
    assert_eq!(cell_sources(1, 1), vec![vec![None]]);
    assert_eq!(cell_sources(0, 4), Vec::<Vec<Option<usize>>>::new());
}

#[test]
fn two_port_values_run_s11_s21_s12_s22() {
    let data = read_touchstone_text("# GHz S RI R 50\n1.0 0.9 -0.1 0.05 0.02 0.1 0.2 0.85 -0.15\n");
    let words = &data.data[0];
    let m = cell_sources(2, words.len() - 1);
    let cell = |r: usize, c: usize| {
        let at = m[r][c].unwrap() + 1;
        (words[at].parse::<f64>().unwrap(), words[at + 1].parse::<f64>().unwrap())
    };
    assert_eq!(cell(1, 0), (0.05, 0.02));
    assert_eq!(cell(0, 1), (0.1, 0.2));
    assert_eq!(cell(0, 0), (0.9, -0.1));
    assert_eq!(cell(1, 1), (0.85, -0.15));
}

#[test]
fn cells_are_ordered_as_written() {
    assert_eq!(cell_order(2), vec![(0, 0), (1, 0), (0, 1), (1, 1)]);
    assert_eq!(cell_order(1), vec![(0, 0)]);
    assert_eq!(cell_order(3)[1], (0, 1));
    assert_eq!(cell_order(3).len(), 9);
}

#[test]
fn frequency_unit_parse_any_case() {
    assert_eq!(FrequencyUnit::parse("GHz"), Some(FrequencyUnit::GHz));
    assert_eq!(FrequencyUnit::parse("mhz"), Some(FrequencyUnit::MHz));
    assert_eq!(FrequencyUnit::parse("KHZ"), Some(FrequencyUnit::KHz));
    assert_eq!(FrequencyUnit::parse("hz"), Some(FrequencyUnit::Hz));
    assert_eq!(FrequencyUnit::parse("THz"), None);
    assert_eq!(unit_from_upper("ghz"), None);
}

#[test]
fn option_line_words() {
    let mut st = default_options();
    for w in "# MHZ Y DB R 75".split_whitespace().skip(1) {
        st = apply_option_word(st, &w.to_uppercase());
    }
    assert_eq!(st.unit, FrequencyUnit::MHz);
    assert_eq!(st.param_type, ParamType::Y);
    assert_eq!(st.format, SParamFormat::DecibelAngle);
}
