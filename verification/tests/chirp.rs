use narm::chirp::{channels_to_csv, chirp_fields, chirp_rows, mhz_string, tone_string, truncate, NAME_MAX};
use narm::{Admit, Bandwidth, C4fmRate, Channel, Mode, Power};

fn fm(name: &str, rx_hz: u64) -> Channel {
    Channel {
        name: name.into(),
        rx_hz,
        shift_hz: 0,
        power: Power::Low,
        scan: true,
        mode: Mode::Fm {
            bandwidth: Bandwidth::Wide,
            tone_tx_dhz: None,
            tone_rx_dhz: None,
            dcs_code: None,
        },
        source: None,
    }
}

fn rows(csv: &str) -> Vec<Vec<String>> {
    let mut rdr = csv::ReaderBuilder::new()
        .has_headers(false)
        .from_reader(csv.as_bytes());
    rdr.records()
        .map(|r| r.unwrap().iter().map(|s| s.to_string()).collect())
        .collect()
}

#[test]
fn empty_input_yields_header_only() {
    let report = channels_to_csv(&[]).unwrap();
    assert!(report.warnings.is_empty());
    let r = rows(&report.csv);
    assert_eq!(r.len(), 1);
    assert_eq!(r[0][0], "Location");
    assert_eq!(r[0].len(), 21);
}

#[test]
fn header_line_is_exact() {
    let report = channels_to_csv(&[]).unwrap();
    assert_eq!(
        report.csv,
        "Location,Name,Frequency,Duplex,Offset,Tone,rToneFreq,cToneFreq,DtcsCode,DtcsPolarity,\
         RxDtcsCode,CrossMode,Mode,TStep,Skip,Power,Comment,URCALL,RPT1CALL,RPT2CALL,DVCODE\n"
    );
}

#[test]
fn single_simplex_fm() {
    let report = channels_to_csv(&[fm("Simplex 2m", 145_500_000)]).unwrap();
    let r = rows(&report.csv);
    assert_eq!(r.len(), 2);
    let row = &r[1];
    assert_eq!(row[0], "1");
    assert_eq!(row[1], "Simplex 2m");
    assert_eq!(row[2], "145.500000");
    assert_eq!(row[3], "");
    assert_eq!(row[4], "0.000000");
    assert_eq!(row[5], "");
    assert_eq!(row[12], "FM");
    assert_eq!(row[14], "");
    assert_eq!(row[15], "1.0W");
}

#[test]
fn two_meter_repeater_minus_600k() {
    let mut ch = fm("GB3WE", 145_725_000);
    ch.shift_hz = -600_000;
    let report = channels_to_csv(&[ch]).unwrap();
    let row = &rows(&report.csv)[1];
    assert_eq!(row[3], "-");
    assert_eq!(row[4], "0.600000");
}

#[test]
fn seventy_cm_repeater_plus_shift() {
    let mut ch = fm("UP", 430_000_000);
    ch.shift_hz = 7_600_000;
    let row = &rows(&channels_to_csv(&[ch]).unwrap().csv)[1];
    assert_eq!(row[3], "+");
    assert_eq!(row[4], "7.600000");
}

#[test]
fn ctcss_tx_only_yields_tone() {
    let mut ch = fm("Tone TX", 145_500_000);
    ch.mode = Mode::Fm {
        bandwidth: Bandwidth::Wide,
        tone_tx_dhz: Some(885),
        tone_rx_dhz: None,
        dcs_code: None,
    };
    let row = &rows(&channels_to_csv(&[ch]).unwrap().csv)[1];
    assert_eq!(row[5], "Tone");
    assert_eq!(row[6], "88.5");
    assert_eq!(row[7], "88.5");
}

#[test]
fn ctcss_tx_and_rx_same_yields_tsql() {
    let mut ch = fm("TSQL", 145_500_000);
    ch.mode = Mode::Fm {
        bandwidth: Bandwidth::Wide,
        tone_tx_dhz: Some(1230),
        tone_rx_dhz: Some(1230),
        dcs_code: None,
    };
    let row = &rows(&channels_to_csv(&[ch]).unwrap().csv)[1];
    assert_eq!(row[5], "TSQL");
    assert_eq!(row[6], "123.0");
    assert_eq!(row[7], "123.0");
}

#[test]
fn different_tones_yield_cross() {
    let mut ch = fm("X", 145_500_000);
    ch.mode = Mode::Fm {
        bandwidth: Bandwidth::Wide,
        tone_tx_dhz: Some(670),
        tone_rx_dhz: Some(2541),
        dcs_code: None,
    };
    let row = &rows(&channels_to_csv(&[ch.clone()]).unwrap().csv)[1];
    assert_eq!(row[5], "Cross");
    assert_eq!(row[6], "67.0");
    assert_eq!(row[7], "254.1");
    ch.mode = Mode::Fm {
        bandwidth: Bandwidth::Wide,
        tone_tx_dhz: None,
        tone_rx_dhz: Some(1000),
        dcs_code: None,
    };
    let row = &rows(&channels_to_csv(&[ch]).unwrap().csv)[1];
    assert_eq!(row[5], "Cross");
    assert_eq!(row[6], "88.5");
    assert_eq!(row[7], "100.0");
}

#[test]
fn dcs_code_yields_dtcs_mode() {
    let mut ch = fm("DTCS", 145_500_000);
    ch.mode = Mode::Fm {
        bandwidth: Bandwidth::Wide,
        tone_tx_dhz: None,
        tone_rx_dhz: None,
        dcs_code: Some(74),
    };
    let row = &rows(&channels_to_csv(&[ch]).unwrap().csv)[1];
    assert_eq!(row[5], "DTCS");
    assert_eq!(row[8], "074");
    assert_eq!(row[9], "NN");
}

#[test]
fn narrow_bandwidth_yields_nfm() {
    let mut ch = fm("Narrow", 446_006_250);
    ch.mode = Mode::Fm {
        bandwidth: Bandwidth::Narrow,
        tone_tx_dhz: None,
        tone_rx_dhz: None,
        dcs_code: None,
    };
    let row = &rows(&channels_to_csv(&[ch]).unwrap().csv)[1];
    assert_eq!(row[12], "NFM");
    assert_eq!(row[2], "446.006250");
}

#[test]
fn am_channel_yields_am_mode() {
    let mut ch = fm("Air", 121_250_000);
    ch.mode = Mode::Am {
        bandwidth: Bandwidth::Wide,
        tone_tx_dhz: None,
        tone_rx_dhz: None,
        dcs_code: None,
    };
    let row = &rows(&channels_to_csv(&[ch]).unwrap().csv)[1];
    assert_eq!(row[12], "AM");
}

#[test]
fn dstar_emits_dv_mode_and_calls() {
    let ch = Channel {
        name: "GB7DC".into(),
        rx_hz: 439_575_000,
        shift_hz: -9_000_000,
        power: Power::Mid,
        scan: true,
        mode: Mode::Dstar {
            urcall: "CQCQCQ".into(),
            rpt1: "GB7DC  B".into(),
            rpt2: "GB7DC  G".into(),
        },
        source: None,
    };
    let row = &rows(&channels_to_csv(&[ch]).unwrap().csv)[1];
    assert_eq!(row[12], "DV");
    assert_eq!(row[17], "CQCQCQ");
    assert_eq!(row[18], "GB7DC  B");
    assert_eq!(row[19], "GB7DC  G");
    assert_eq!(row[15], "2.5W");
}

#[test]
fn dmr_channel_skipped_with_warning() {
    let ch = Channel {
        name: "DMR-SW".into(),
        rx_hz: 439_412_500,
        shift_hz: -9_400_000,
        power: Power::Mid,
        scan: true,
        mode: Mode::Dmr {
            color_code: 1,
            slot: 2,
            talkgroup: 23_505,
            admit_policy: Admit::ColorCodeFree,
        },
        source: None,
    };
    let report = channels_to_csv(&[ch]).unwrap();
    assert_eq!(rows(&report.csv).len(), 1, "header only");
    assert_eq!(report.warnings.len(), 1);
    assert!(report.warnings[0].contains("DMR-SW"));
    assert!(report.warnings[0].contains("DMR"));
    assert_eq!(report.warnings[0], "skipping DMR-SW: DMR not supported by CHIRP CSV");
}

#[test]
fn unsupported_modes_all_skip_with_warning() {
    let chans = vec![
        Channel {
            name: "C4".into(),
            rx_hz: 145_375_000,
            shift_hz: 0,
            power: Power::Mid,
            scan: true,
            mode: Mode::C4fm {
                dg_id_tx: 0,
                dg_id_rx: 0,
                data_rate: C4fmRate::Dn,
            },
            source: None,
        },
        Channel {
            name: "P".into(),
            rx_hz: 145_500_000,
            shift_hz: 0,
            power: Power::Mid,
            scan: true,
            mode: Mode::P25 {
                nac: 0x293,
                talkgroup: 1,
            },
            source: None,
        },
        Channel {
            name: "M".into(),
            rx_hz: 433_475_000,
            shift_hz: 0,
            power: Power::Mid,
            scan: true,
            mode: Mode::M17 {
                destination: "ALL".into(),
                can: 0,
            },
            source: None,
        },
    ];
    let report = channels_to_csv(&chans).unwrap();
    assert_eq!(rows(&report.csv).len(), 1);
    assert_eq!(report.warnings.len(), 3);
}

#[test]
fn skipped_channels_do_not_use_up_locations() {
    let mut dmr = fm("D", 439_000_000);
    dmr.mode = Mode::Dmr {
        color_code: 1,
        slot: 1,
        talkgroup: 9,
        admit_policy: Admit::Always,
    };
    let report = channels_to_csv(&[fm("A", 145_000_000), dmr, fm("B", 145_100_000)]).unwrap();
    let r = rows(&report.csv);
    assert_eq!(r.len(), 3);
    assert_eq!(r[1][0], "1");
    assert_eq!(r[2][0], "2");
    assert_eq!(r[2][1], "B");
}

#[test]
fn channel_name_truncated_with_warning() {
    let ch = fm("ThisNameIsWayTooLongForCHIRP", 145_500_000);
    let report = channels_to_csv(&[ch]).unwrap();
    let row = &rows(&report.csv)[1];
    assert_eq!(row[1].chars().count(), NAME_MAX);
    assert_eq!(row[1], "ThisNameIsWayToo");
    assert_eq!(report.warnings.len(), 1);
    assert!(report.warnings[0].contains("truncated"));
}

#[test]
fn scan_false_emits_skip_s() {
    let mut ch = fm("NoScan", 145_500_000);
    ch.scan = false;
    let row = &rows(&channels_to_csv(&[ch]).unwrap().csv)[1];
    assert_eq!(row[14], "S");
}

#[test]
fn power_levels_map_to_watts() {
    for (p, expected) in [
        (Power::Low, "1.0W"),
        (Power::Mid, "2.5W"),
        (Power::High, "5.0W"),
    ] {
        let mut ch = fm("X", 145_500_000);
        ch.power = p;
        let row = &rows(&channels_to_csv(&[ch]).unwrap().csv)[1];
        assert_eq!(row[15], expected);
    }
}

#[test]
fn field_helpers_exact_values() {
    assert_eq!(mhz_string(145_725_000), "145.725000");
    assert_eq!(mhz_string(0), "0.000000");
    assert_eq!(mhz_string(1), "0.000001");
    assert_eq!(tone_string(885), "88.5");
    assert_eq!(tone_string(5), "0.5");
    assert_eq!(truncate("abc", 2), "ab");
    assert_eq!(truncate("åäö", 16), "åäö");
}

#[test]
fn fields_and_rows_agree_with_csv() {
    let ch = fm("Simplex 2m", 145_500_000);
    let fields = chirp_fields(&ch, 7).unwrap();
    assert_eq!(fields.len(), 21);
    assert_eq!(fields[0], "7");
    let table = chirp_rows(&[ch]);
    assert_eq!(table.rows.len(), 1);
    assert_eq!(table.rows[0][0], "1");
    assert!(table.warnings.is_empty());
}

#[test]
fn names_with_commas_are_quoted() {
    let report = channels_to_csv(&[fm("a,b", 145_500_000)]).unwrap();
    let r = rows(&report.csv);
    assert_eq!(r[1][1], "a,b");
    assert!(report.csv.contains("\"a,b\""));
}

#[test]
fn compiles_full_sample_for_chirp_csv() {
    let mut gb3we = fm("GB3WE", 145_725_000);
    gb3we.shift_hz = -600_000;
    gb3we.mode = Mode::Fm {
        bandwidth: Bandwidth::Wide,
        tone_tx_dhz: Some(885),
        tone_rx_dhz: Some(885),
        dcs_code: None,
    };
    let simplex = fm("S20", 145_500_000);
    let dmr = Channel {
        name: "DMR-SW".into(),
        rx_hz: 439_412_500,
        shift_hz: -9_400_000,
        power: Power::Mid,
        scan: true,
        mode: Mode::Dmr {
            color_code: 1,
            slot: 2,
            talkgroup: 23_505,
            admit_policy: Admit::ColorCodeFree,
        },
        source: None,
    };
    let gb7dc = Channel {
        name: "GB7DC".into(),
        rx_hz: 439_575_000,
        shift_hz: -9_000_000,
        power: Power::Mid,
        scan: true,
        mode: Mode::Dstar {
            urcall: "CQCQCQ".into(),
            rpt1: "GB7DC  B".into(),
            rpt2: "GB7DC  G".into(),
        },
        source: None,
    };
    let wires = Channel {
        name: "Wires-X".into(),
        rx_hz: 145_375_000,
        shift_hz: 0,
        power: Power::Mid,
        scan: true,
        mode: Mode::C4fm {
            dg_id_tx: 0,
            dg_id_rx: 0,
            data_rate: C4fmRate::Dn,
        },
        source: None,
    };
    let report = channels_to_csv(&[gb3we, simplex, dmr, gb7dc, wires]).expect("convert");
    let r = rows(&report.csv);
    assert_eq!(r.len(), 1 + 3, "header + 3 supported rows");
    assert_eq!(report.warnings.len(), 2, "DMR + C4FM warnings");

    let gb3we = r.iter().find(|row| row[1] == "GB3WE").expect("GB3WE row present");
    assert_eq!(gb3we[2], "145.725000");
    assert_eq!(gb3we[3], "-");
    assert_eq!(gb3we[4], "0.600000");
    assert_eq!(gb3we[5], "TSQL");
    assert_eq!(gb3we[6], "88.5");
    assert_eq!(gb3we[7], "88.5");
    assert_eq!(gb3we[12], "FM");
    assert_eq!(gb3we[15], "1.0W");
    assert_eq!(gb3we[14], "");

    let gb7dc = r.iter().find(|row| row[1] == "GB7DC").expect("GB7DC row present");
    assert_eq!(gb7dc[12], "DV");
    assert_eq!(gb7dc[17], "CQCQCQ");
    assert_eq!(gb7dc[18], "GB7DC  B");

    assert!(report.warnings.iter().any(|w| w.contains("DMR-SW")));
    assert!(report.warnings.iter().any(|w| w.contains("Wires-X")));
}

#[test]
fn name_with_comma_and_quote_is_quoted() {
    let report = channels_to_csv(&[fm("A,B \"x\"", 145_500_000)]).unwrap();
    let line = report.csv.lines().nth(1).unwrap();
    assert!(line.starts_with("1,\"A,B \"\"x\"\"\",145.500000,"));
    assert_eq!(rows(&report.csv)[1][1], "A,B \"x\"");
}
