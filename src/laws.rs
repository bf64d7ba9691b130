use vstd::prelude::*;
use crate::picture::{
    Picture,
    decodes_to,
    encoded,
    filter_all,
    line_at,
    lines_text,
    payload_of,
    picture_pixels,
    pixels_of,
    rendered,
};
use crate::pixel::{
    FilterKind,
    Point,
    dec,
    digit_char,
    filtered,
    pixel_line,
    green_pixel,
    red_pixel,
    violet_pixel,
    white_to_red_pixel,
};
use crate::text::{
    all_digits,
    closed_lines,
    closed_tokens,
    digit_value,
    digits_value,
    is_digit,
    is_ws,
    open_line,
    open_token,
    lines_of,
    numbers_of,
    parse_u32,
    parsed,
    strip_cr,
    tokens_of,
    unsigned_part,
};

verus! {

/// The red filter adds exactly 50 to a red channel of at most 155, sets a
/// larger one to 255, and leaves green and blue as they were.
pub proof fn red_filter_rule(p: Point)
    ensures
        p.red <= 155 ==> red_pixel(p).red == p.red + 50,
        p.red > 155 ==> red_pixel(p).red == 255,
        red_pixel(p).green == p.green,
        red_pixel(p).blue == p.blue,
{
}

/// The violet filter treats red and blue each as the red filter treats
/// red, independently, and never changes green.
pub proof fn violet_is_red_rule_twice(p: Point)
    ensures
        violet_pixel(p).red == red_pixel(p).red,
        violet_pixel(p).blue == red_pixel(Point { red: p.blue, ..p }).red,
        violet_pixel(p).green == p.green,
{
}

/// The green filter treats green as the red filter treats red.
pub proof fn green_is_red_rule(p: Point)
    ensures
        green_pixel(p).green == red_pixel(Point { red: p.green, ..p }).red,
        green_pixel(p).red == p.red,
        green_pixel(p).blue == p.blue,
{
}

/// The white-to-red filter zeroes green and blue of a pixel whose three
/// channels all exceed 200, keeping red; any other pixel is unchanged.
pub proof fn white_to_red_rule(p: Point)
    ensures
        p.red > 200 && p.green > 200 && p.blue > 200 ==> white_to_red_pixel(p) == (Point {
            red: p.red,
            green: 0,
            blue: 0,
        }),
        !(p.red > 200 && p.green > 200 && p.blue > 200) ==> white_to_red_pixel(p) == p,
{
}

/// Decoding the same text twice gives pictures on which every filter
/// writes the same output: the pipeline's output is a function of its input.
pub proof fn output_is_deterministic(text: Seq<char>, p1: Picture, p2: Picture, kind: FilterKind)
    requires
        decodes_to(text, p1),
        decodes_to(text, p2),
    ensures
        rendered(p1, kind) == rendered(p2, kind),
{
}

proof fn lemma_digit(d: nat)
    requires
        d < 10,
    ensures
        is_digit(digit_char(d)),
        digit_value(digit_char(d)) == d,
        !is_ws(digit_char(d)),
        digit_char(d) != '+',
        digit_char(d) != '\n',
        digit_char(d) != '\r',
{
    let ds = seq!['0', '1', '2', '3', '4', '5', '6', '7', '8', '9'];
    assert(digit_char(d) == ds[d as int]);
}

proof fn lemma_dec(n: nat)
    ensures
        dec(n).len() > 0,
        all_digits(dec(n)),
        digits_value(dec(n)) == n,
        forall|i: int| 0 <= i < dec(n).len() ==> !is_ws(#[trigger] dec(n)[i]),
        forall|i: int| 0 <= i < dec(n).len() ==> dec(n)[i] != '\n' && dec(n)[i] != '\r',
        dec(n)[0] != '+',
    decreases n,
{
    if n < 10 {
        lemma_digit(n);
        assert(dec(n).drop_last() =~= Seq::<char>::empty());
        assert(digits_value(Seq::<char>::empty()) == 0);
    } else {
        lemma_dec(n / 10);
        lemma_digit(n % 10);
        let s = dec(n);
        assert(s == dec(n / 10).push(digit_char(n % 10)));
        assert(s.drop_last() =~= dec(n / 10));
        assert(forall|i: int| 0 <= i < s.len() - 1 ==> s[i] == dec(n / 10)[i]);
        assert(digits_value(s) == digits_value(dec(n / 10)) * 10 + digit_value(digit_char(n % 10)));
        assert((n / 10) * 10 + n % 10 == n);
    }
}

proof fn lemma_parse_dec(n: u32)
    ensures
        parse_u32(dec(n as nat)) == Some(n),
{
    lemma_dec(n as nat);
    assert(unsigned_part(dec(n as nat)) == dec(n as nat));
}

proof fn lemma_open_line_concat(a: Seq<char>, b: Seq<char>)
    requires
        a.len() == 0 || a.last() == '\n',
    ensures
        open_line(a + b) == open_line(b),
    decreases b.len(),
{
    if b.len() == 0 {
        assert(a + b =~= a);
    } else {
        assert((a + b).drop_last() =~= a + b.drop_last());
        lemma_open_line_concat(a, b.drop_last());
    }
}

proof fn lemma_closed_lines_concat(a: Seq<char>, b: Seq<char>)
    requires
        a.len() == 0 || a.last() == '\n',
    ensures
        closed_lines(a + b) == closed_lines(a) + closed_lines(b),
    decreases b.len(),
{
    if b.len() == 0 {
        assert(a + b =~= a);
        assert(closed_lines(a) + closed_lines(b) =~= closed_lines(a));
    } else {
        assert((a + b).drop_last() =~= a + b.drop_last());
        lemma_closed_lines_concat(a, b.drop_last());
        lemma_open_line_concat(a, b.drop_last());
        if b.last() == '\n' {
            assert(closed_lines(a + b) =~= closed_lines(a) + closed_lines(b));
        }
    }
}

/// Splitting text at a line boundary splits its lines there.
proof fn lemma_lines_concat(a: Seq<char>, b: Seq<char>)
    requires
        a.len() == 0 || a.last() == '\n',
    ensures
        lines_of(a + b) == lines_of(a) + lines_of(b),
{
    lemma_closed_lines_concat(a, b);
    lemma_open_line_concat(a, b);
    if open_line(b).len() > 0 {
        assert(closed_lines(a) + closed_lines(b).push(open_line(b)) =~= (closed_lines(a)
            + closed_lines(b)).push(open_line(b)));
    }
}

proof fn lemma_no_newline(l: Seq<char>)
    requires
        forall|i: int| 0 <= i < l.len() ==> l[i] != '\n',
    ensures
        open_line(l) == l,
        closed_lines(l) == Seq::<Seq<char>>::empty(),
    decreases l.len(),
{
    if l.len() > 0 {
        lemma_no_newline(l.drop_last());
        assert(l.drop_last().push(l.last()) =~= l);
    }
}

/// A header line: no newline in it, and no carriage return at its end.
pub open spec fn is_header_line(l: Seq<char>) -> bool {
    &&& forall|i: int| 0 <= i < l.len() ==> l[i] != '\n'
    &&& !(l.len() > 0 && l.last() == '\r')
}

proof fn lemma_single_line(l: Seq<char>)
    requires
        is_header_line(l),
    ensures
        lines_of(l.push('\n')) == seq![l],
{
    lemma_no_newline(l);
    assert(l.push('\n').drop_last() =~= l);
    assert(strip_cr(l) == l);
    assert(closed_lines(l.push('\n')) =~= seq![l]);
}

proof fn lemma_open_token_concat(a: Seq<char>, b: Seq<char>)
    requires
        a.len() == 0 || is_ws(a.last()),
    ensures
        open_token(a + b) == open_token(b),
    decreases b.len(),
{
    if b.len() == 0 {
        assert(a + b =~= a);
    } else {
        assert((a + b).drop_last() =~= a + b.drop_last());
        lemma_open_token_concat(a, b.drop_last());
    }
}

proof fn lemma_closed_tokens_concat(a: Seq<char>, b: Seq<char>)
    requires
        a.len() == 0 || is_ws(a.last()),
    ensures
        closed_tokens(a + b) == closed_tokens(a) + closed_tokens(b),
    decreases b.len(),
{
    if b.len() == 0 {
        assert(a + b =~= a);
        assert(closed_tokens(a) + closed_tokens(b) =~= closed_tokens(a));
    } else {
        assert((a + b).drop_last() =~= a + b.drop_last());
        lemma_closed_tokens_concat(a, b.drop_last());
        lemma_open_token_concat(a, b.drop_last());
        if is_ws(b.last()) && open_token(b.drop_last()).len() > 0 {
            assert(closed_tokens(a + b) =~= closed_tokens(a) + closed_tokens(b));
        }
    }
}

/// Splitting text after whitespace splits its tokens there.
proof fn lemma_tokens_concat(a: Seq<char>, b: Seq<char>)
    requires
        a.len() == 0 || is_ws(a.last()),
    ensures
        tokens_of(a + b) == tokens_of(a) + tokens_of(b),
{
    lemma_closed_tokens_concat(a, b);
    lemma_open_token_concat(a, b);
    if open_token(b).len() > 0 {
        assert(closed_tokens(a) + closed_tokens(b).push(open_token(b)) =~= (closed_tokens(a)
            + closed_tokens(b)).push(open_token(b)));
    }
}

proof fn lemma_no_ws(w: Seq<char>)
    requires
        forall|i: int| 0 <= i < w.len() ==> !is_ws(#[trigger] w[i]),
    ensures
        open_token(w) == w,
        closed_tokens(w) == Seq::<Seq<char>>::empty(),
    decreases w.len(),
{
    if w.len() > 0 {
        lemma_no_ws(w.drop_last());
        assert(w.drop_last().push(w.last()) =~= w);
    }
}

/// The decimal text of `n` followed by whitespace is the single token
/// `dec(n)`.
proof fn lemma_number_token(n: nat, c: char)
    requires
        is_ws(c),
    ensures
        tokens_of(dec(n).push(c)) == seq![dec(n)],
{
    lemma_dec(n);
    lemma_no_ws(dec(n));
    assert(dec(n).push(c).drop_last() =~= dec(n));
    assert(closed_tokens(dec(n).push(c)) =~= seq![dec(n)]);
}

proof fn lemma_parsed_concat(x: Seq<Seq<char>>, y: Seq<Seq<char>>)
    ensures
        parsed(x + y) == parsed(x) + parsed(y),
    decreases y.len(),
{
    if y.len() == 0 {
        assert(x + y =~= x);
        assert(parsed(x) + parsed(y) =~= parsed(x));
    } else {
        assert((x + y).drop_last() =~= x + y.drop_last());
        lemma_parsed_concat(x, y.drop_last());
        assert(parsed(x + y) =~= parsed(x) + parsed(y));
    }
}

proof fn lemma_parsed_single(n: u32)
    ensures
        parsed(seq![dec(n as nat)]) == seq![n],
{
    lemma_parse_dec(n);
    assert(seq![dec(n as nat)].drop_last() =~= Seq::<Seq<char>>::empty());
    assert(parsed(Seq::<Seq<char>>::empty()) == Seq::<u32>::empty());
    assert(parsed(seq![dec(n as nat)]) =~= seq![n]);
}

/// The channel values of pixels, three per pixel, in order.
spec fn channel_values(ps: Seq<Point>) -> Seq<u32>
    decreases ps.len(),
{
    if ps.len() == 0 {
        seq![]
    } else {
        channel_values(ps.drop_last()) + seq![ps.last().red, ps.last().green, ps.last().blue]
    }
}

/// The pixel lines without their newlines.
spec fn bare_lines(ps: Seq<Point>) -> Seq<Seq<char>> {
    ps.map_values(|q: Point| pixel_line(q).drop_last())
}

proof fn lemma_pixel_line(q: Point)
    ensures
        pixel_line(q).len() > 0,
        pixel_line(q).last() == '\n',
        pixel_line(q).drop_last().push('\n') == pixel_line(q),
        lines_of(pixel_line(q)) == seq![pixel_line(q).drop_last()],
        numbers_of(pixel_line(q)) == seq![q.red, q.green, q.blue],
{
    let r = dec(q.red as nat);
    let g = dec(q.green as nat);
    let b = dec(q.blue as nat);
    let l = pixel_line(q);
    lemma_dec(q.red as nat);
    lemma_dec(q.green as nat);
    lemma_dec(q.blue as nat);
    assert(l.drop_last().push('\n') =~= l);
    let x = l.drop_last();
    assert(x =~= r + seq![' '] + g + seq![' '] + b);
    assert forall|i: int| 0 <= i < x.len() implies x[i] != '\n' by {
        if i < r.len() {
            assert(x[i] == r[i]);
        } else if i == r.len() {
        } else if i < r.len() + 1 + g.len() {
            assert(x[i] == g[i - r.len() - 1]);
        } else if i == r.len() + 1 + g.len() {
        } else {
            assert(x[i] == b[i - r.len() - 2 - g.len()]);
        }
    }
    assert(x.last() == b.last());
    assert(is_header_line(x));
    lemma_single_line(x);
    assert(l =~= r.push(' ') + (g.push(' ') + b.push('\n')));
    lemma_tokens_concat(r.push(' '), g.push(' ') + b.push('\n'));
    lemma_tokens_concat(g.push(' '), b.push('\n'));
    lemma_number_token(q.red as nat, ' ');
    lemma_number_token(q.green as nat, ' ');
    lemma_number_token(q.blue as nat, '\n');
    assert(tokens_of(l) =~= seq![r] + (seq![g] + seq![b]));
    lemma_parsed_concat(seq![r], seq![g] + seq![b]);
    lemma_parsed_concat(seq![g], seq![b]);
    lemma_parsed_single(q.red);
    lemma_parsed_single(q.green);
    lemma_parsed_single(q.blue);
    assert(numbers_of(l) =~= seq![q.red, q.green, q.blue]);
}

proof fn lemma_lines_text(ps: Seq<Point>)
    ensures
        lines_text(ps).len() == 0 || lines_text(ps).last() == '\n',
        lines_of(lines_text(ps)) == bare_lines(ps),
        numbers_of(lines_text(ps)) == channel_values(ps),
    decreases ps.len(),
{
    if ps.len() == 0 {
        assert(lines_of(Seq::<char>::empty()) =~= bare_lines(ps));
        assert(tokens_of(Seq::<char>::empty()) =~= Seq::<Seq<char>>::empty());
    } else {
        let a = lines_text(ps.drop_last());
        let q = ps.last();
        lemma_lines_text(ps.drop_last());
        lemma_pixel_line(q);
        lemma_lines_concat(a, pixel_line(q));
        lemma_tokens_concat(a, pixel_line(q));
        lemma_parsed_concat(tokens_of(a), tokens_of(pixel_line(q)));
        assert(bare_lines(ps) =~= bare_lines(ps.drop_last()).push(pixel_line(q).drop_last()));
        assert(lines_of(lines_text(ps)) =~= bare_lines(ps));
    }
}

proof fn lemma_channel_pixels(ps: Seq<Point>)
    ensures
        channel_values(ps).len() == 3 * ps.len(),
        pixels_of(channel_values(ps)) == ps,
    decreases ps.len(),
{
    if ps.len() > 0 {
        let m = ps.len() - 1;
        let c = channel_values(ps);
        let c0 = channel_values(ps.drop_last());
        lemma_channel_pixels(ps.drop_last());
        assert forall|k: int| 0 <= k < ps.len() implies pixels_of(c)[k] == ps[k] by {
            if k < m {
                assert(c[3 * k] == c0[3 * k]);
                assert(c[3 * k + 1] == c0[3 * k + 1]);
                assert(c[3 * k + 2] == c0[3 * k + 2]);
                assert(pixels_of(c0)[k] == ps.drop_last()[k]);
            }
        }
        assert(pixels_of(c) =~= ps);
    } else {
        assert(pixels_of(channel_values(ps)) =~= ps);
    }
}

proof fn lemma_payload(h: Seq<Seq<char>>, ps: Seq<Point>)
    requires
        h.len() == 3,
    ensures
        payload_of(h + bare_lines(ps)) == lines_text(ps),
    decreases ps.len(),
{
    if ps.len() == 0 {
        assert(h + bare_lines(ps) =~= h);
    } else {
        let q = ps.last();
        lemma_payload(h, ps.drop_last());
        lemma_pixel_line(q);
        assert((h + bare_lines(ps)).drop_last() =~= h + bare_lines(ps.drop_last()));
        assert((h + bare_lines(ps)).last() == pixel_line(q).drop_last());
        assert(pixel_line(q).drop_last() + seq!['\n'] =~= pixel_line(q));
        assert(payload_of(h + bare_lines(ps)) =~= lines_text(ps));
    }
}

/// Encoding a picture with some pixels and decoding the text gives back the
/// three header lines verbatim and exactly those pixels, in order, provided
/// no header line holds a newline or ends with a carriage return.
pub proof fn encode_then_decode(p: Picture, ps: Seq<Point>, q: Picture)
    requires
        is_header_line(p.format@),
        is_header_line(p.size@),
        is_header_line(p.colors@),
        decodes_to(encoded(p, ps), q),
    ensures
        q.format@ == p.format@,
        q.size@ == p.size@,
        q.colors@ == p.colors@,
        q.value@ == lines_text(ps),
        picture_pixels(q) == ps,
{
    let f = p.format@;
    let s = p.size@;
    let c = p.colors@;
    let body = lines_text(ps);
    assert(encoded(p, ps) =~= f.push('\n') + (s.push('\n') + (c.push('\n') + body)));
    lemma_lines_text(ps);
    lemma_single_line(f);
    lemma_single_line(s);
    lemma_single_line(c);
    lemma_lines_concat(c.push('\n'), body);
    lemma_lines_concat(s.push('\n'), c.push('\n') + body);
    lemma_lines_concat(f.push('\n'), s.push('\n') + (c.push('\n') + body));
    let ls = lines_of(encoded(p, ps));
    assert(ls =~= seq![f, s, c] + bare_lines(ps));
    lemma_payload(seq![f, s, c], ps);
    lemma_channel_pixels(ps);
}

/// Decoding a text, encoding the result with its own pixels and decoding
/// again reproduces the header lines and the pixel sequence.
pub proof fn decode_encode_round_trip(text: Seq<char>, p: Picture, q: Picture)
    requires
        decodes_to(text, p),
        is_header_line(p.format@),
        is_header_line(p.size@),
        is_header_line(p.colors@),
        decodes_to(encoded(p, picture_pixels(p)), q),
    ensures
        q.format@ == line_at(lines_of(text), 0),
        q.size@ == line_at(lines_of(text), 1),
        q.colors@ == line_at(lines_of(text), 2),
        picture_pixels(q) == picture_pixels(p),
{
    encode_then_decode(p, picture_pixels(p), q);
}

/// Each filter's output is a well-formed image of its own: decoding it
/// gives the input's header lines and one pixel per input pixel, each the
/// filtered input pixel at the same place.
pub proof fn filter_output_consistent(p: Picture, kind: FilterKind, q: Picture)
    requires
        is_header_line(p.format@),
        is_header_line(p.size@),
        is_header_line(p.colors@),
        decodes_to(rendered(p, kind), q),
    ensures
        q.format@ == p.format@,
        q.size@ == p.size@,
        q.colors@ == p.colors@,
        picture_pixels(q).len() == picture_pixels(p).len(),
        forall|k: int|
            0 <= k < picture_pixels(p).len() ==> #[trigger] picture_pixels(q)[k] == filtered(
                kind,
                picture_pixels(p)[k],
            ),
{
    encode_then_decode(p, filter_all(kind, picture_pixels(p)), q);
}

} // verus!
