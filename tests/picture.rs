use ppm_filters::picture::Picture;
use ppm_filters::pixel::{FilterKind, Point};
use ppm_filters::text::{chars_of, parse_numbers, parse_token, split_lines};

fn pt(red: u32, green: u32, blue: u32) -> Point {
    Point { red, green, blue }
}

fn chars(s: &str) -> Vec<char> {
    s.chars().collect()
}

const SAMPLE: &str = "P3\n4 4\n255\n255 255 255  100 200 50  0 0 0  156 156 156\n\
10 20 30  40 50 60  70 80 90  100 110 120\n\
130 140 150  160 170 180  190 200 210  220 230 240\n\
250 250 250  201 201 201  200 200 200  1 2 3\n";

#[test]
fn chars_of_keeps_every_char() {
    assert_eq!(chars_of("aé \n"), vec!['a', 'é', ' ', '\n']);
}

#[test]
fn split_lines_like_std() {
    for s in ["", "a", "a\n", "a\nb", "a\r\nb\r\n", "\n\n", "x\ry\n", "a\r", "a\n\nb"] {
        let want: Vec<Vec<char>> = s.lines().map(|l| l.chars().collect()).collect();
        assert_eq!(split_lines(&chars(s)), want, "input {:?}", s);
    }
}

#[test]
fn parse_token_like_std() {
    for s in ["0", "7", "+5", "+", "-1", "", "12a", "4294967295", "4294967296", "99999999999", "007"] {
        assert_eq!(parse_token(&chars(s)), s.parse::<u32>().ok(), "token {:?}", s);
    }
}

#[test]
fn parse_numbers_skips_bad_tokens() {
    let got = parse_numbers(&chars(" 1 x 2\t+3\n-4 5000000000 6\u{a0}7 "));
    assert_eq!(got, vec![1, 2, 3, 6, 7]);
}

#[test]
fn decode_splits_header_and_payload() {
    let p = Picture::decode("P3\r\n2 1\n255\n1 2 3\r\n4 5 6");
    assert_eq!(p.format, "P3");
    assert_eq!(p.size, "2 1");
    assert_eq!(p.colors, "255");
    assert_eq!(p.value, "1 2 3\n4 5 6\n");
}

#[test]
fn decode_short_input() {
    let p = Picture::decode("P3\n");
    assert_eq!(p.format, "P3");
    assert_eq!(p.size, "");
    assert_eq!(p.colors, "");
    assert_eq!(p.value, "");
    assert!(p.pixels().is_empty());
}

#[test]
fn header_text() {
    let p = Picture::decode("P3\n4 4\n255\n");
    assert_eq!(p.header(), "P3\n4 4\n255\n");
}

#[test]
fn pixels_group_by_three_and_drop_partial() {
    let p = Picture::decode("P3\n1 1\n255\n1 2\n3 4 5 6 7\n");
    assert_eq!(p.pixels(), vec![pt(1, 2, 3), pt(4, 5, 6)]);
}

#[test]
fn encode_writes_header_and_lines() {
    let p = Picture::decode("P3\n2 1\n255\n");
    let text = p.encode(&vec![pt(1, 2, 3), pt(40, 50, 600)]);
    assert_eq!(text, "P3\n2 1\n255\n1 2 3\n40 50 600\n");
}

#[test]
fn scenario_white_and_red_outputs() {
    let p = Picture::decode(SAMPLE);
    assert_eq!(p.pixels().len(), 16);
    let white = p.render(FilterKind::WhiteToRed);
    let white_lines: Vec<&str> = white.lines().collect();
    assert_eq!(&white_lines[0..3], &["P3", "4 4", "255"]);
    assert_eq!(white_lines[3], "255 0 0");
    let red = p.render(FilterKind::Red);
    let red_lines: Vec<&str> = red.lines().collect();
    assert_eq!(red_lines[6], "255 156 156");
    assert_eq!(red_lines[3], "255 255 255");
    assert_eq!(red_lines[4], "150 200 50");
}

#[test]
fn all_outputs_keep_pixel_count() {
    let p = Picture::decode(SAMPLE);
    let n = p.pixels().len();
    for kind in FilterKind::all() {
        let out = Picture::decode(&p.render(kind));
        assert_eq!(out.format, p.format);
        assert_eq!(out.size, p.size);
        assert_eq!(out.colors, p.colors);
        assert_eq!(out.pixels().len(), n);
    }
}

#[test]
fn output_is_deterministic() {
    let a = Picture::decode(SAMPLE);
    let b = Picture::decode(SAMPLE);
    for kind in FilterKind::all() {
        assert_eq!(a.render(kind), b.render(kind));
    }
}

#[test]
fn decode_encode_round_trip() {
    let p = Picture::decode("P3\n3 1\n255\n  1 2 3 4\n5 6 +7 8 9\n");
    let text = p.encode(&p.pixels());
    assert_eq!(text, "P3\n3 1\n255\n1 2 3\n4 5 6\n7 8 9\n");
    let q = Picture::decode(&text);
    assert_eq!(q.format, "P3");
    assert_eq!(q.size, "3 1");
    assert_eq!(q.colors, "255");
    assert_eq!(q.pixels(), p.pixels());
}

#[test]
fn violet_and_green_render() {
    let p = Picture::decode("P3\n2 1\n255\n0 0 0\n155 156 255\n");
    assert_eq!(p.render(FilterKind::Violet), "P3\n2 1\n255\n50 0 50\n205 156 255\n");
    assert_eq!(p.render(FilterKind::Green), "P3\n2 1\n255\n0 50 0\n155 255 255\n");
}
