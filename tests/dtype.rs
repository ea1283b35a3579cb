use dxx::DType;

#[test]
fn from_filename_reads_last_suffix() {
    assert_eq!(DType::from_filename("a.DSA"), Ok(DType::DSA));
    assert_eq!(DType::from_filename("dir.DSB/sine.DFA"), Ok(DType::DFA));
    assert_eq!(DType::from_filename("x.y.DDA"), Ok(DType::DDA));
    assert_eq!(DType::from_filename("SLTF_0_L.DSB"), Ok(DType::DSB));
    assert_eq!(DType::from_filename("w.DFB"), Ok(DType::DFB));
    assert_eq!(DType::from_filename("path/to/move_judge.DDB"), Ok(DType::DDB));
}

#[test]
fn from_filename_without_dot_is_refused() {
    assert!(DType::from_filename("DDB").is_err());
    assert!(DType::from_filename("sine").is_err());
    assert!(DType::from_filename("dir/DSB").is_err());
}

#[test]
fn from_filename_rejects_unknown_suffixes() {
    assert!(DType::from_filename("a.wav").is_err());
    assert!(DType::from_filename("a.dsb").is_err());
    assert!(DType::from_filename("a.DSBX").is_err());
    assert!(DType::from_filename("a.DDB.").is_err());
    assert!(DType::from_filename("").is_err());
    assert!(DType::from_filename("a.DXB").is_err());
    assert!(DType::from_filename("a.ESA").is_err());
}

#[test]
fn from_str_matches_tokens() {
    assert_eq!("DSA".parse::<DType>(), Ok(DType::DSA));
    assert_eq!("DDB".parse::<DType>(), Ok(DType::DDB));
    assert_eq!("DDC".parse::<DType>(), Err("invalid string"));
    assert_eq!(DType::from_suffix("DFB"), Ok(DType::DFB));
    assert_eq!(DType::from_suffix("D"), Err("invalid string"));
}

#[test]
fn names_round_trip() {
    let all = [DType::DSA, DType::DFA, DType::DDA, DType::DSB, DType::DFB, DType::DDB];
    let names = ["DSA", "DFA", "DDA", "DSB", "DFB", "DDB"];
    for (d, n) in all.iter().zip(names.iter()) {
        assert_eq!(d.name(), *n);
        assert_eq!(DType::from_suffix(d.name()), Ok(*d));
    }
}

#[test]
fn widths_by_family() {
    assert_eq!(DType::DSA.byte_width(), 2);
    assert_eq!(DType::DSB.byte_width(), 2);
    assert_eq!(DType::DFA.byte_width(), 4);
    assert_eq!(DType::DFB.byte_width(), 4);
    assert_eq!(DType::DDA.byte_width(), 8);
    assert_eq!(DType::DDB.byte_width(), 8);
    assert_eq!(DType::DSB.bits_width(), 16);
    assert_eq!(DType::DFA.bits_width(), 32);
    assert_eq!(DType::DDB.bits_width(), 64);
}

#[test]
fn text_and_amplitude_by_format() {
    assert!(DType::DSA.is_text());
    assert!(DType::DFA.is_text());
    assert!(DType::DDA.is_text());
    assert!(!DType::DSB.is_text());
    assert!(!DType::DFB.is_text());
    assert!(!DType::DDB.is_text());
    assert_eq!(DType::DSA.amplitude(), 32767);
    assert_eq!(DType::DSB.amplitude(), 32767);
    assert_eq!(DType::DFB.amplitude(), 10000);
    assert_eq!(DType::DDA.amplitude(), 10000);
}
