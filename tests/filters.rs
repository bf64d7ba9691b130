use ppm_filters::pixel::{
    green_filter, push_decimal, push_pixel_line, red_filter, violet_filter, white_to_red, FilterKind,
    Point,
};

fn pt(red: u32, green: u32, blue: u32) -> Point {
    Point { red, green, blue }
}

#[test]
fn red_filter_adds_fifty_below_threshold() {
    let mut p = pt(100, 7, 9);
    let mut out = String::new();
    red_filter(&mut p, &mut out);
    assert_eq!(p, pt(150, 7, 9));
    assert_eq!(out, "150 7 9\n");
}

#[test]
fn red_filter_edge_at_155_and_156() {
    let mut a = pt(155, 0, 0);
    let mut b = pt(156, 0, 0);
    let mut out = String::new();
    red_filter(&mut a, &mut out);
    red_filter(&mut b, &mut out);
    assert_eq!(a.red, 205);
    assert_eq!(b.red, 255);
    assert_eq!(out, "205 0 0\n255 0 0\n");
}

#[test]
fn red_filter_saturates_large_values() {
    let mut p = pt(4000, 300, 1);
    let mut out = String::from("x\n");
    red_filter(&mut p, &mut out);
    assert_eq!(p, pt(255, 300, 1));
    assert_eq!(out, "x\n255 300 1\n");
}

#[test]
fn green_filter_rule() {
    let mut a = pt(1, 155, 2);
    let mut b = pt(1, 200, 2);
    let mut out = String::new();
    green_filter(&mut a, &mut out);
    green_filter(&mut b, &mut out);
    assert_eq!(a, pt(1, 205, 2));
    assert_eq!(b, pt(1, 255, 2));
    assert_eq!(out, "1 205 2\n1 255 2\n");
}

#[test]
fn violet_filter_boosts_red_and_blue() {
    let mut p = pt(10, 20, 160);
    let mut out = String::new();
    violet_filter(&mut p, &mut out);
    assert_eq!(p, pt(60, 20, 255));
    assert_eq!(out, "60 20 255\n");
}

#[test]
fn violet_matches_red_rule_on_each_channel() {
    for r in [0u32, 100, 155, 156, 255] {
        for b in [0u32, 100, 155, 156, 255] {
            let mut v = pt(r, 42, b);
            let mut red_of_r = pt(r, 42, b);
            let mut red_of_b = pt(b, 42, r);
            let mut out = String::new();
            violet_filter(&mut v, &mut out);
            red_filter(&mut red_of_r, &mut out);
            red_filter(&mut red_of_b, &mut out);
            assert_eq!(v.red, red_of_r.red);
            assert_eq!(v.blue, red_of_b.red);
            assert_eq!(v.green, 42);
        }
    }
}

#[test]
fn white_to_red_on_near_white() {
    let mut p = pt(255, 255, 255);
    let mut out = String::new();
    white_to_red(&mut p, &mut out);
    assert_eq!(p, pt(255, 0, 0));
    assert_eq!(out, "255 0 0\n");
}

#[test]
fn white_to_red_leaves_other_pixels() {
    let cases = [pt(200, 255, 255), pt(255, 200, 255), pt(255, 255, 200), pt(0, 0, 0)];
    for c in cases {
        let mut p = c;
        let mut out = String::new();
        white_to_red(&mut p, &mut out);
        assert_eq!(p, c);
    }
    let mut q = pt(201, 201, 201);
    let mut out = String::new();
    white_to_red(&mut q, &mut out);
    assert_eq!(q, pt(201, 0, 0));
}

#[test]
fn apply_dispatches_to_each_filter() {
    let start = pt(150, 150, 210);
    let expected = [
        (FilterKind::Red, pt(200, 150, 210)),
        (FilterKind::Green, pt(150, 200, 210)),
        (FilterKind::Violet, pt(200, 150, 255)),
        (FilterKind::WhiteToRed, pt(150, 150, 210)),
    ];
    for (kind, want) in expected {
        let mut p = start;
        let mut out = String::new();
        kind.apply(&mut p, &mut out);
        assert_eq!(p, want);
    }
}

#[test]
fn file_names_and_order() {
    let names: Vec<&str> = FilterKind::all().iter().map(|k| k.file_name()).collect();
    assert_eq!(names, vec!["red.ppm", "green.ppm", "violet.ppm", "whiteToRed.ppm"]);
}

#[test]
fn decimal_text() {
    let mut s = String::new();
    push_decimal(&mut s, 0);
    s.push('|');
    push_decimal(&mut s, 7);
    s.push('|');
    push_decimal(&mut s, 1090);
    s.push('|');
    push_decimal(&mut s, u32::MAX);
    assert_eq!(s, "0|7|1090|4294967295");
}

#[test]
fn pixel_line_text() {
    let mut s = String::from("head\n");
    push_pixel_line(&pt(1, 22, 333), &mut s);
    assert_eq!(s, "head\n1 22 333\n");
}
