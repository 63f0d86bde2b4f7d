use imgen::best_aspect_ratio;
use imgen::numeral::{parse_float, parse_u64};

fn strings(v: &[&str]) -> Vec<String> {
    v.iter().map(|s| s.to_string()).collect()
}

#[test]
fn default_size_picks_four_to_three() {
    let allowed = strings(&["1:1", "16:9", "3:2", "4:3"]);
    assert_eq!(best_aspect_ratio(1024, 768, &allowed), "4:3");
}

#[test]
fn full_hd_picks_sixteen_to_nine() {
    let allowed = strings(&["1:1", "16:9", "3:2", "4:3"]);
    assert_eq!(best_aspect_ratio(1920, 1080, &allowed), "16:9");
}

#[test]
fn custom_wins_when_allowed() {
    let allowed = strings(&["1:1", "16:9", "custom"]);
    assert_eq!(best_aspect_ratio(1920, 1080, &allowed), "custom");
}

#[test]
fn falls_back_to_square_without_ratios() {
    let allowed = strings(&["match_input_image", "1:2:3", "wide"]);
    assert_eq!(best_aspect_ratio(1024, 768, &allowed), "1:1");
    assert_eq!(best_aspect_ratio(1024, 768, &[]), "1:1");
}

#[test]
fn first_of_equally_close_ratios_wins() {
    // 1:2 and 3:2 both lie 0.5 away from 1.
    let allowed = strings(&["1:2", "3:2"]);
    assert_eq!(best_aspect_ratio(500, 500, &allowed), "1:2");
    let allowed = strings(&["3:2", "1:2"]);
    assert_eq!(best_aspect_ratio(500, 500, &allowed), "3:2");
}

#[test]
fn decimal_ratios_are_compared_exactly() {
    let allowed = strings(&["2.39:1", "16:9", "21:9"]);
    // 2400/1000 = 2.4: 2.39 is 0.01 away, 21/9 = 2.333.. is 0.066.. away.
    assert_eq!(best_aspect_ratio(2400, 1000, &allowed), "2.39:1");
    let allowed = strings(&["1.5:1", ".5:1", "2.:1"]);
    assert_eq!(best_aspect_ratio(100, 190, &allowed), ".5:1");
    assert_eq!(best_aspect_ratio(190, 100, &allowed), "2.:1");
}

#[test]
fn ratios_without_height_are_farthest() {
    let allowed = strings(&["1:0", "0:0", "9:16"]);
    assert_eq!(best_aspect_ratio(1920, 1080, &allowed), "9:16");
    let allowed = strings(&["1:0"]);
    assert_eq!(best_aspect_ratio(1920, 1080, &allowed), "1:0");
}

#[test]
fn zero_height_takes_first_ratio() {
    let allowed = strings(&["nope", "4:3", "1:1"]);
    assert_eq!(best_aspect_ratio(100, 0, &allowed), "4:3");
}

#[test]
fn signed_ratios_are_read() {
    let allowed = strings(&["-1:1", "+1:1"]);
    assert_eq!(best_aspect_ratio(1, 1, &allowed), "+1:1");
}

#[test]
fn parse_u64_reads_plain_integers() {
    assert_eq!(parse_u64("120"), Some(120));
    assert_eq!(parse_u64("+7"), Some(7));
    assert_eq!(parse_u64("18446744073709551615"), Some(u64::MAX));
    assert_eq!(parse_u64("18446744073709551616"), None);
    assert_eq!(parse_u64("-1"), None);
    assert_eq!(parse_u64("+"), None);
    assert_eq!(parse_u64(""), None);
    assert_eq!(parse_u64("1 "), None);
}

fn digits(v: &[u8]) -> u128 {
    v.iter().rev().fold(0u128, |acc, d| acc * 10 + *d as u128)
}

fn side(s: &str) -> Option<(i128, u128)> {
    let cs: Vec<char> = s.chars().collect();
    parse_float(&cs).map(|f| {
        assert!(!f.neg_den);
        let n = digits(&f.num) as i128;
        (if f.neg_num { -n } else { n }, digits(&f.den))
    })
}

#[test]
fn parse_float_reads_sides_as_fractions() {
    assert_eq!(side("16"), Some((16, 1)));
    assert_eq!(side("-2.39"), Some((-239, 100)));
    assert_eq!(side("+.5"), Some((5, 10)));
    assert_eq!(side("3."), Some((3, 1)));
    assert_eq!(side("1e3"), Some((1000, 1)));
    assert_eq!(side("2.5E-2"), Some((25, 1000)));
    assert_eq!(side("0e999999999999999999999999"), Some((0, 1)));
    assert_eq!(side("inf"), Some((1, 0)));
    assert_eq!(side("-Infinity"), Some((-1, 0)));
    assert_eq!(side("NaN"), Some((0, 0)));
    assert_eq!(side("1e500"), Some((1, 0)));
    assert_eq!(side("-1e500"), Some((-1, 0)));
    assert_eq!(side("1e-500"), Some((0, 1)));
    assert_eq!(side("1e99999999999999999999999999"), Some((1, 0)));
    assert_eq!(side("1e-99999999999999999999999999"), Some((0, 1)));
    assert_eq!(side("."), None);
    assert_eq!(side("1.2.3"), None);
    assert_eq!(side("1e"), None);
    assert_eq!(side("1e+"), None);
    assert_eq!(side("e5"), None);
    assert_eq!(side("1e2e3"), None);
    assert_eq!(side("infin"), None);
    assert_eq!(side(" 1"), None);
    assert_eq!(side(""), None);
}

#[test]
fn exponent_ratios_are_read() {
    let allowed = strings(&["1e1:1"]);
    assert_eq!(best_aspect_ratio(16, 9, &allowed), "1e1:1");
    let allowed = strings(&["1e1:1", "9:1"]);
    assert_eq!(best_aspect_ratio(95, 10, &allowed), "1e1:1");
    assert_eq!(best_aspect_ratio(94, 10, &allowed), "9:1");
    let allowed = strings(&["1:1", "1E1:1"]);
    assert_eq!(best_aspect_ratio(1000, 100, &allowed), "1E1:1");
    let allowed = strings(&["1:1", "2.5e-1:1"]);
    assert_eq!(best_aspect_ratio(100, 400, &allowed), "2.5e-1:1");
}

#[test]
fn long_numerals_are_read_exactly() {
    let allowed = strings(&["100000000000000000000000:1", "1:1"]);
    assert_eq!(best_aspect_ratio(1, 1, &allowed), "1:1");
    let allowed = strings(&["1:1", "30000000000000000000000:10000000000000000000000"]);
    assert_eq!(
        best_aspect_ratio(3000, 1000, &allowed),
        "30000000000000000000000:10000000000000000000000"
    );
}

#[test]
fn infinite_and_undefined_sides() {
    let allowed = strings(&["inf:1", "1:1"]);
    assert_eq!(best_aspect_ratio(16, 9, &allowed), "1:1");
    let allowed = strings(&["16:9", "1:inf"]);
    assert_eq!(best_aspect_ratio(1, 1000, &allowed), "1:inf");
    let allowed = strings(&["INFINITY:1"]);
    assert_eq!(best_aspect_ratio(16, 9, &allowed), "INFINITY:1");
    let allowed = strings(&["NaN:1"]);
    assert_eq!(best_aspect_ratio(16, 9, &allowed), "NaN:1");
    let allowed = strings(&["1e500:1", "1:1"]);
    assert_eq!(best_aspect_ratio(1, 1, &allowed), "1:1");
    let allowed = strings(&["1:100", "1e-500:1"]);
    assert_eq!(best_aspect_ratio(1, 1000, &allowed), "1e-500:1");
}

#[test]
fn exact_tie_keeps_the_first_listed_ratio() {
    let allowed = strings(&["2:3", "4:3"]);
    assert_eq!(best_aspect_ratio(1024, 1024, &allowed), "2:3");
    assert_eq!(best_aspect_ratio(1, 1, &allowed), "2:3");
}

#[test]
fn only_the_ratio_of_the_size_matters() {
    let allowed = strings(&["1:1", "16:9", "3:2", "4:3", "21:9"]);
    for (w, h) in [(1024u32, 768u32), (1920, 1080), (640, 480), (333, 1000)] {
        for k in [2u32, 3, 7] {
            assert_eq!(best_aspect_ratio(w * k, h * k, &allowed), best_aspect_ratio(w, h, &allowed));
        }
    }
}

#[test]
fn values_that_are_not_ratios_change_nothing() {
    let mixed = strings(&["match_input_image", "3:2", "wide", "16:9", "1:2:3"]);
    let ratios = strings(&["3:2", "16:9"]);
    for (w, h) in [(1024u32, 768u32), (1920, 1080), (100, 300)] {
        assert_eq!(best_aspect_ratio(w, h, &mixed), best_aspect_ratio(w, h, &ratios));
    }
}
