use mcc::tc::TimeCodeFormat;
use mcc::TimeCode;

#[test]
fn from_string() {
    let rate_str = "30DF";
    assert_eq!(
        TimeCodeFormat::from_str(rate_str),
        Some(TimeCodeFormat::Fps30DropFrame)
    );

    let rate_str = "30DFF";
    assert_eq!(TimeCodeFormat::from_str(rate_str), None);

    let rate_str = "60";
    assert_eq!(
        TimeCodeFormat::from_str(rate_str),
        Some(TimeCodeFormat::Fps60)
    );
}

#[test]
fn to_string() {
    let s: String = String::from(TimeCodeFormat::Fps30DropFrame.as_str());
    assert_eq!(s, "30DF");

    let vs: &str = TimeCodeFormat::Fps30DropFrame.as_str();
    assert_eq!(vs, "30DF");
}

#[test]
fn round_trip_every_variant() {
    let variants = [
        TimeCodeFormat::Fps24,
        TimeCodeFormat::Fps25,
        TimeCodeFormat::Fps30,
        TimeCodeFormat::Fps30DropFrame,
        TimeCodeFormat::Fps50,
        TimeCodeFormat::Fps60,
        TimeCodeFormat::Fps60DropFrame,
    ];
    for v in variants {
        assert_eq!(TimeCodeFormat::from_str(v.as_str()), Some(v));
    }
}

#[test]
fn token_table() {
    assert_eq!(TimeCodeFormat::Fps24.as_str(), "24");
    assert_eq!(TimeCodeFormat::Fps25.as_str(), "25");
    assert_eq!(TimeCodeFormat::Fps30.as_str(), "30");
    assert_eq!(TimeCodeFormat::Fps50.as_str(), "50");
    assert_eq!(TimeCodeFormat::Fps60.as_str(), "60");
    assert_eq!(TimeCodeFormat::Fps60DropFrame.as_str(), "60DF");
}

#[test]
fn no_match_is_not_a_crash() {
    assert_eq!(TimeCodeFormat::from_str("30DFF"), None);
    assert_eq!(TimeCodeFormat::from_str(""), None);
    assert_eq!(TimeCodeFormat::from_str("24 "), None);
    assert_eq!(TimeCodeFormat::from_str("df"), None);
    assert_eq!(TimeCodeFormat::from_str("2"), None);
}

#[test]
fn default_variant() {
    assert_eq!(TimeCodeFormat::default(), TimeCodeFormat::Fps30);
}

#[test]
fn timecode_display_pads_to_two_digits() {
    let t = TimeCode {
        hour: 1,
        minute: 2,
        second: 3,
        frame: 4,
    };
    assert_eq!(t.display(), "01:02:03;04");
    let z = TimeCode {
        hour: 0,
        minute: 0,
        second: 0,
        frame: 0,
    };
    assert_eq!(z.display(), "00:00:00;00");
    let w = TimeCode {
        hour: 12,
        minute: 34,
        second: 56,
        frame: 78,
    };
    assert_eq!(w.display(), "12:34:56;78");
}

#[test]
fn timecode_display_keeps_wide_fields() {
    let t = TimeCode {
        hour: 123,
        minute: 0,
        second: 7,
        frame: 100,
    };
    assert_eq!(t.display(), "123:00:07;100");
}

#[test]
fn timecode_from_tuple() {
    let t = TimeCode::from((1, 2, 3, 4));
    assert_eq!(
        t,
        TimeCode {
            hour: 1,
            minute: 2,
            second: 3,
            frame: 4
        }
    );
}
