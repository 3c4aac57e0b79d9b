use bnx_filter::{
    assemble, classify, emit_if_accepted, filter_molecule, label_count, parse_or_zero,
    process_bnx_file_with_constants, tab_field, write_molecule, Assembler, Length, LineKind,
    Molecule, Step,
};

fn length_of(m: &Molecule) -> Option<Length> {
    m.length_field()
        .and_then(|t| t.parse::<f64>().ok())
        .map(|x| Length::from_bits(x.to_bits()))
}

fn run(input: &str, min_length: f64, min_labels: i32) -> Vec<String> {
    let min = Length::from_bits(min_length.to_bits());
    let mut out: Vec<String> = Vec::new();
    let mut assembler = Assembler::new();
    for line in input.lines() {
        match assembler.feed(line.to_string()) {
            Step::Nothing => {}
            Step::Header(h) => out.push(h),
            Step::Closed(m) => {
                let len = length_of(&m);
                emit_if_accepted(&mut out, &m, len, min, min_labels);
            }
        }
    }
    if let Some(m) = assembler.finish() {
        let len = length_of(&m);
        emit_if_accepted(&mut out, &m, len, min, min_labels);
    }
    out
}

fn molecule(backbone: &str) -> Molecule {
    Molecule::with_backbone(backbone.to_string())
}

fn len(x: f64) -> Length {
    Length::from_bits(x.to_bits())
}

const SAMPLE: &str = "#hdr\n0\tA\t5000000\tx\ty\t20\n1\tB\nQX11\tC\nQX12\tD\n";

#[test]
fn sample_passes_with_all_lines() {
    let out = run(SAMPLE, 1000000.0, 15);
    assert_eq!(
        out,
        vec!["#hdr", "0\tA\t5000000\tx\ty\t20", "1\tB", "QX11\tC", "QX12\tD"]
    );
}

#[test]
fn sample_excluded_keeps_header() {
    let out = run(SAMPLE, 6000000.0, 15);
    assert_eq!(out, vec!["#hdr"]);
}

#[test]
fn unreadable_fields_excluded() {
    let m = molecule("0\tA\tNaN\tx\ty\tbad");
    assert_eq!(label_count("0\tA\tNaN\tx\ty\tbad"), 0);
    assert!(!filter_molecule(&m, length_of(&m), len(1.0), 1));
    assert!(!filter_molecule(&m, None, len(0.5), 1));
    let out = run("0\tA\tNaN\tx\ty\tbad\n", 1.0, 1);
    assert!(out.is_empty());
}

#[test]
fn boundary_is_inclusive() {
    let m = molecule("0\tA\t1000\tx\ty\t15");
    assert!(filter_molecule(&m, length_of(&m), len(1000.0), 15));
    assert!(!filter_molecule(&m, length_of(&m), len(1000.5), 15));
    assert!(!filter_molecule(&m, length_of(&m), len(1000.0), 16));
}

#[test]
fn non_numeric_length_counts_as_zero() {
    let m = molecule("0\tA\tlong\tx\ty\t50");
    assert_eq!(length_of(&m), None);
    assert!(!filter_molecule(&m, None, len(0.001), 0));
    assert!(filter_molecule(&m, None, len(0.0), 0));
}

#[test]
fn last_record_flushed_with_empty_companions() {
    let out = run("#h\n0\tA\t10\tx\ty\t3", 5.0, 2);
    assert_eq!(out, vec!["#h", "0\tA\t10\tx\ty\t3", "", "", ""]);
}

#[test]
fn later_snr_line_wins() {
    let out = run("0\tA\t10\tx\ty\t3\nQX11\tfirst\nQX12\ti\nQX11\tsecond\n", 1.0, 1);
    assert_eq!(out, vec!["0\tA\t10\tx\ty\t3", "", "QX11\tsecond", "QX12\ti"]);
}

#[test]
fn framing_of_interleaved_records() {
    let input = "#a\n0\tm1\t10\tx\ty\t5\n1\tb1\nQX11\ts1\nQX12\ti1\n#b\n0\tm2\t1\tx\ty\t5\n1\tb2\nQX11\ts2\nQX12\ti2\n#c\n0\tm3\t20\tx\ty\t9\n1\tb3\nQX11\ts3\nQX12\ti3\n";
    let out = run(input, 5.0, 5);
    assert_eq!(
        out,
        vec![
            "#a", "#b", "0\tm1\t10\tx\ty\t5", "1\tb1", "QX11\ts1", "QX12\ti1", "#c",
            "0\tm3\t20\tx\ty\t9", "1\tb3", "QX11\ts3", "QX12\ti3",
        ]
    );
    let headers = out.iter().filter(|l| l.starts_with('#')).count();
    assert_eq!(headers, 3);
}

#[test]
fn companion_lines_before_any_backbone_are_dropped() {
    let out = run("QX11\tstray\n1\tstray\n0\tA\t10\tx\ty\t3\n", 1.0, 1);
    assert_eq!(out, vec!["0\tA\t10\tx\ty\t3", "", "", ""]);
}

#[test]
fn unrecognized_lines_ignored() {
    let out = run("junk\n0\tA\t10\tx\ty\t3\nQX13\tz\n\n", 1.0, 1);
    assert_eq!(out, vec!["0\tA\t10\tx\ty\t3", "", "", ""]);
}

#[test]
fn classify_by_prefix() {
    assert_eq!(classify("#x"), LineKind::Header);
    assert_eq!(classify("0"), LineKind::BackboneStart);
    assert_eq!(classify("0garbage"), LineKind::BackboneStart);
    assert_eq!(classify("1\t2"), LineKind::BasepairLabels);
    assert_eq!(classify("QX11\t1"), LineKind::SnrLabels);
    assert_eq!(classify("QX12"), LineKind::IntensityLabels);
    assert_eq!(classify("QX1"), LineKind::Unrecognized);
    assert_eq!(classify("QX13"), LineKind::Unrecognized);
    assert_eq!(classify(""), LineKind::Unrecognized);
    assert_eq!(classify("2"), LineKind::Unrecognized);
}

#[test]
fn tab_fields() {
    assert_eq!(tab_field("a\tbc\t\td", 0), Some("a".to_string()));
    assert_eq!(tab_field("a\tbc\t\td", 1), Some("bc".to_string()));
    assert_eq!(tab_field("a\tbc\t\td", 2), Some("".to_string()));
    assert_eq!(tab_field("a\tbc\t\td", 3), Some("d".to_string()));
    assert_eq!(tab_field("a\tbc\t\td", 4), None);
    assert_eq!(tab_field("", 0), Some("".to_string()));
    assert_eq!(tab_field("x\t", 1), Some("".to_string()));
}

#[test]
fn short_backbone_has_no_label_count() {
    assert_eq!(label_count("0\tA\t5000"), 0);
    let m = molecule("0\tA\t5000");
    assert!(!filter_molecule(&m, length_of(&m), len(1.0), 1));
}

#[test]
fn integer_parse() {
    assert_eq!(parse_or_zero("20"), 20);
    assert_eq!(parse_or_zero("+7"), 7);
    assert_eq!(parse_or_zero("-12"), -12);
    assert_eq!(parse_or_zero("2147483647"), 2147483647);
    assert_eq!(parse_or_zero("2147483648"), 0);
    assert_eq!(parse_or_zero("-"), 0);
    assert_eq!(parse_or_zero(" 5"), 0);
    assert_eq!(parse_or_zero("bad"), 0);
    assert_eq!(parse_or_zero(""), 0);
}

#[test]
fn length_comparison_follows_doubles() {
    assert!(len(2.0).at_least(&len(1.0)));
    assert!(len(1.0).at_least(&len(1.0)));
    assert!(!len(1.0).at_least(&len(2.0)));
    assert!(len(0.0).at_least(&len(-0.0)));
    assert!(len(-0.0).at_least(&len(0.0)));
    assert!(len(-1.0).at_least(&len(-2.0)));
    assert!(!len(-2.0).at_least(&len(-1.0)));
    assert!(len(1.0).at_least(&len(-5.0)));
    assert!(!len(-5.0).at_least(&len(1.0)));
    assert!(len(f64::INFINITY).at_least(&len(1e300)));
    assert!(!len(f64::NAN).at_least(&len(0.0)));
    assert!(!len(0.0).at_least(&len(f64::NAN)));
    assert!(len(f64::NEG_INFINITY).at_least(&len(f64::NEG_INFINITY)));
    assert_eq!(Length::zero().bits, 0);
}

#[test]
fn write_molecule_appends_four_lines() {
    let mut m = molecule("0\tA");
    m.labels_snr = "QX11\ts".to_string();
    let mut out = vec!["prev".to_string()];
    write_molecule(&mut out, &m);
    assert_eq!(out, vec!["prev", "0\tA", "", "QX11\ts", ""]);
}

#[test]
fn built_in_thresholds() {
    let (min_length, min_labels) = process_bnx_file_with_constants();
    assert_eq!(min_length, len(1000000.0));
    assert_eq!(min_labels, 15);
}

#[test]
fn feed_reports_steps() {
    let mut assembler = Assembler::new();
    assert!(matches!(assembler.feed("1\tb".to_string()), Step::Nothing));
    assert!(matches!(assembler.feed("0\tA".to_string()), Step::Nothing));
    match assembler.feed("#h".to_string()) {
        Step::Header(h) => assert_eq!(h, "#h"),
        other => panic!("unexpected {:?}", other),
    }
    assembler.feed("QX12\tq".to_string());
    match assembler.feed("0\tB".to_string()) {
        Step::Closed(m) => {
            assert_eq!(m.backbone, "0\tA");
            assert_eq!(m.labels_basepair, "");
            assert_eq!(m.labels_int, "QX12\tq");
        }
        other => panic!("unexpected {:?}", other),
    }
    let last = assembler.finish().unwrap();
    assert_eq!(last.backbone, "0\tB");
    assert!(Assembler::new().finish().is_none());
}

#[test]
fn assemble_whole_input() {
    let lines: Vec<String> = ["x", "#h1", "0\tA", "QX11\ts", "#h2", "0\tB", "1\tb"]
        .iter()
        .map(|l| l.to_string())
        .collect();
    let steps = assemble(&lines);
    assert_eq!(steps.len(), 4);
    assert!(matches!(&steps[0], Step::Header(h) if h == "#h1"));
    assert!(matches!(&steps[1], Step::Header(h) if h == "#h2"));
    match &steps[2] {
        Step::Closed(m) => {
            assert_eq!(m.backbone, "0\tA");
            assert_eq!(m.labels_snr, "QX11\ts");
        }
        other => panic!("unexpected {:?}", other),
    }
    match &steps[3] {
        Step::Closed(m) => {
            assert_eq!(m.backbone, "0\tB");
            assert_eq!(m.labels_basepair, "1\tb");
        }
        other => panic!("unexpected {:?}", other),
    }
    assert!(assemble(&Vec::new()).is_empty());
}

#[test]
fn nan_length_counts_as_zero() {
    let m = molecule("0\tA\tNaN\tx\ty\tbad");
    assert!(length_of(&m).unwrap().is_nan());
    assert!(filter_molecule(&m, length_of(&m), len(0.0), 0));
    assert!(!filter_molecule(&m, length_of(&m), len(0.0), 1));
    let out = run("0\tA\tNaN\tx\ty\tbad\n", 0.0, 0);
    assert_eq!(out, vec!["0\tA\tNaN\tx\ty\tbad", "", "", ""]);
    assert!(!len(1.0).is_nan());
    assert!(len(f64::NAN).is_nan());
}
