use rust_bt::types::{
    format_instrument, is_star_market, parse_instrument, BenchmarkName, DealPrice, ExcessMethod,
    WapKind,
};
use rust_bt::order::Side;

#[test]
fn instrument_roundtrip() {
    assert_eq!(parse_instrument("SH600000").unwrap(), 600_000);
    assert_eq!(parse_instrument("SZ000006").unwrap(), 6);
    assert_eq!(parse_instrument("SZ300750").unwrap(), 300_750);
    assert_eq!(parse_instrument("SH688981").unwrap(), 688_981);
    assert_eq!(format_instrument(600_000).unwrap(), "SH600000");
    assert_eq!(format_instrument(6).unwrap(), "SZ000006");
    assert_eq!(format_instrument(300_750).unwrap(), "SZ300750");
    assert_eq!(format_instrument(688_981).unwrap(), "SH688981");
    for s in ["SH600000", "SZ000006", "SZ300750", "SH688981"] {
        assert_eq!(format_instrument(parse_instrument(s).unwrap()).unwrap(), s);
    }
}

#[test]
fn instrument_invalid() {
    assert!(parse_instrument("BJ430047").is_err());
    assert!(parse_instrument("SH60000").is_err());
    assert!(parse_instrument("600000").is_err());
    assert!(parse_instrument("SH60000A").is_err());
    assert!(parse_instrument("CSI932000").is_err());
    assert!(parse_instrument("SZ600000").is_err());
    assert!(parse_instrument("SH000006").is_err());
    assert!(parse_instrument("SH300750").is_err());
    assert!(format_instrument(430_047).is_err());
    assert!(format_instrument(920_001).is_err());
}

#[test]
fn star_market() {
    assert!(is_star_market(688_981));
    assert!(is_star_market(689_009));
    assert!(!is_star_market(600_000));
    assert!(!is_star_market(300_750));
}

#[test]
fn enum_parse() {
    assert_eq!(DealPrice::parse("vwap").unwrap(), DealPrice::Vwap);
    assert!(DealPrice::parse("avg").is_err());
    assert_eq!(ExcessMethod::parse("geometric").unwrap(), ExcessMethod::Geometric);
    assert!(ExcessMethod::parse("geo").is_err());
    assert_eq!(BenchmarkName::from_name("zz1000").unwrap().instrument(), "SH000852");
    assert!(BenchmarkName::from_name("CSI000400").is_none());
}

#[test]
fn deal_price_wap_parse() {
    assert_eq!(
        DealPrice::parse("vwap11").unwrap(),
        DealPrice::Wap { kind: WapKind::Vwap, window: 11 }
    );
    assert_eq!(
        DealPrice::parse("twap1").unwrap(),
        DealPrice::Wap { kind: WapKind::Twap, window: 1 }
    );
    assert_eq!(
        DealPrice::parse("vwap5").unwrap(),
        DealPrice::Wap { kind: WapKind::Vwap, window: 5 }
    );
    assert_eq!(DealPrice::parse("twap11").unwrap().to_string(), "twap11");
    assert_eq!(DealPrice::parse("vwap1").unwrap().to_string(), "vwap1");
    for bad in [
        "vwap0", "vwap12", "twap99", "twap", "vwap_11", "wap11", "vwap11x", "VWAP11",
        "vwap01", "twap007",
    ] {
        assert!(DealPrice::parse(bad).is_err(), "应拒绝: {bad}");
    }
    assert_eq!(DealPrice::parse("open").unwrap().column(), Some("open"));
    assert_eq!(DealPrice::parse("vwap").unwrap().column(), Some("vwap"));
    assert_eq!(DealPrice::parse("twap11").unwrap().column(), None);
    for s in ["open", "close", "vwap", "vwap3", "twap11"] {
        assert_eq!(DealPrice::parse(s).unwrap().to_string(), s);
    }
}

#[test]
fn deal_price_window_is_plain_decimal() {
    // the window is a plain decimal: no sign, no leading zero, and printing it gives the text back
    assert!(DealPrice::parse("vwap+5").is_err());
    assert!(DealPrice::parse("twap-1").is_err());
    assert!(DealPrice::parse("vwap05").is_err());
    assert!(DealPrice::parse("vwap+").is_err());
    assert!(DealPrice::parse("twap256").is_err());
    assert_eq!(DealPrice::parse("vwap5").unwrap(), DealPrice::Wap { kind: WapKind::Vwap, window: 5 });
    assert_eq!(DealPrice::parse("twap11").unwrap().to_string(), "twap11");
    assert!(DealPrice::parse("close").unwrap().column() == Some("close"));
}

#[test]
fn every_deal_price_name_round_trips() {
    for kind in [WapKind::Vwap, WapKind::Twap] {
        for window in 1..=11u8 {
            let d = DealPrice::Wap { kind, window };
            assert_eq!(DealPrice::parse(&d.to_string()).unwrap(), d);
        }
    }
    for d in [DealPrice::Open, DealPrice::Close, DealPrice::Vwap] {
        assert_eq!(DealPrice::parse(&d.to_string()).unwrap(), d);
    }
}

#[test]
fn names_round_trip_through_parse() {
    for k in [WapKind::Vwap, WapKind::Twap] {
        assert_eq!(WapKind::parse(k.as_str()).unwrap(), k);
    }
    assert!(WapKind::parse("VWAP").is_err());
    for m in [ExcessMethod::Arithmetic, ExcessMethod::Geometric] {
        assert_eq!(ExcessMethod::parse(m.as_str()).unwrap(), m);
    }
    let all = [
        BenchmarkName::Hs300,
        BenchmarkName::Zz500,
        BenchmarkName::Cyb,
        BenchmarkName::Zz800,
        BenchmarkName::Zz1000,
        BenchmarkName::Zz2000,
        BenchmarkName::Sci,
        BenchmarkName::Kci,
        BenchmarkName::Cyi,
    ];
    for b in all {
        assert_eq!(BenchmarkName::from_name(b.as_str()), Some(b));
    }
    assert_eq!(BenchmarkName::Hs300.instrument(), "SH000300");
    assert_eq!(BenchmarkName::Zz2000.instrument(), "CSI932000");
    assert_eq!(Side::Buy.as_str(), "buy");
    assert_eq!(Side::Sell.as_str(), "sell");
}

#[test]
fn instrument_edge_cases() {
    assert_eq!(parse_instrument("SZ000000").unwrap(), 0);
    assert_eq!(format_instrument(0).unwrap(), "SZ000000");
    assert_eq!(format_instrument(999_999).is_err(), true);
    assert!(format_instrument(1_000_000).is_err());
    assert!(parse_instrument("SH６00000").is_err());
    assert!(parse_instrument("sh600000").is_err());
    assert!(parse_instrument("").is_err());
    let err = parse_instrument("BJ430047").unwrap_err();
    assert!(matches!(err, rust_bt::error::BtError::Validation(_)));
    assert!(err.message().contains("BJ430047"));
}
