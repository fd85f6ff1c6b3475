use sdr_hal::args::DeviceArgs;

#[test]
fn new_args_are_empty() {
    let args = DeviceArgs::new();
    assert_eq!(args.len(), 0);
    assert_eq!(args.get("driver"), None);
    assert_eq!(args.render(), "");
    assert!(DeviceArgs::default().same_as(&args));
}

#[test]
fn set_adds_at_the_end_and_replaces_in_place() {
    let mut args = DeviceArgs::new();
    args.set("driver", "lime");
    args.set("serial", "123456");
    args.set("driver", "mock");
    assert_eq!(args.len(), 2);
    assert_eq!(args.pair_at(0), Some(("driver".to_string(), "mock".to_string())));
    assert_eq!(args.pair_at(1), Some(("serial".to_string(), "123456".to_string())));
    assert_eq!(args.pair_at(2), None);
    assert_eq!(args.get("driver"), Some("mock".to_string()));
    assert_eq!(args.get("serial"), Some("123456".to_string()));
    assert_eq!(args.get("label"), None);
}

#[test]
fn clone_holds_the_same_pairs() {
    let args = DeviceArgs::parse("driver=mock, serial=7");
    let copy = args.clone();
    assert!(copy.same_as(&args));
    assert_eq!(copy.render(), args.render());
}

#[test]
fn a_filter_asks_for_each_of_its_keys_with_an_equal_value() {
    let device = DeviceArgs::parse("driver=mock, serial=7, label=bench");
    assert!(device.matches(&DeviceArgs::new()));
    assert!(device.matches(&DeviceArgs::parse("driver=mock")));
    assert!(device.matches(&DeviceArgs::parse("serial=7,driver=mock")));
    assert!(!device.matches(&DeviceArgs::parse("driver=lime")));
    assert!(!device.matches(&DeviceArgs::parse("driver=mock,antenna=a")));
    assert!(!device.matches(&DeviceArgs::parse("driver=moc")));
}

#[test]
fn equality_goes_by_pairs_not_by_order() {
    let one = DeviceArgs::parse("driver=mock, serial=7");
    let other = DeviceArgs::parse("serial=7, driver=mock");
    let less = DeviceArgs::parse("driver=mock");
    let changed = DeviceArgs::parse("driver=mock, serial=8");
    assert!(one.same_as(&other));
    assert!(other.same_as(&one));
    assert!(!one.same_as(&less));
    assert!(!less.same_as(&one));
    assert!(!one.same_as(&changed));
    assert!(DeviceArgs::new().same_as(&DeviceArgs::new()));
}

#[test]
fn parse_reads_pairs_and_drops_blanks() {
    let args = DeviceArgs::parse("  driver = lime ,serial=123456\t, label = my radio ");
    assert_eq!(args.len(), 3);
    assert_eq!(args.get("driver"), Some("lime".to_string()));
    assert_eq!(args.get("serial"), Some("123456".to_string()));
    assert_eq!(args.get("label"), Some("my radio".to_string()));
}

#[test]
fn parse_of_the_empty_text_gives_no_pairs() {
    assert_eq!(DeviceArgs::parse("").len(), 0);
    assert_eq!(DeviceArgs::parse("   ").len(), 0);
    assert_eq!(DeviceArgs::parse(",,").len(), 0);
}

#[test]
fn parse_skips_segments_without_an_equals_sign() {
    let args = DeviceArgs::parse("driver=mock,verbose,serial=1");
    assert_eq!(args.render(), "driver=mock, serial=1");
}

#[test]
fn parse_splits_at_the_first_equals_sign() {
    let args = DeviceArgs::parse("expr=a=b");
    assert_eq!(args.get("expr"), Some("a=b".to_string()));
    let bare = DeviceArgs::parse("=x, y=");
    assert_eq!(bare.get(""), Some("x".to_string()));
    assert_eq!(bare.get("y"), Some("".to_string()));
}

#[test]
fn parse_lets_a_later_value_replace_an_earlier_one() {
    let args = DeviceArgs::parse("driver=lime,serial=1,driver=mock");
    assert_eq!(args.render(), "driver=mock, serial=1");
}

#[test]
fn parse_counts_characters_not_bytes() {
    let args = DeviceArgs::parse("größe=zwölf, π=3");
    assert_eq!(args.get("größe"), Some("zwölf".to_string()));
    assert_eq!(args.get("π"), Some("3".to_string()));
}

#[test]
fn render_is_read_back_by_parse() {
    let mut args = DeviceArgs::new();
    args.set("driver", "mock");
    args.set("serial", "0042");
    args.set("label", "bench radio");
    let text = args.render();
    assert_eq!(text, "driver=mock, serial=0042, label=bench radio");
    assert!(DeviceArgs::parse(&text).same_as(&args));
    assert_eq!(DeviceArgs::parse(&text).render(), text);
}

#[test]
fn render_of_one_pair_has_no_separator() {
    assert_eq!(DeviceArgs::parse("driver=mock").render(), "driver=mock");
}
