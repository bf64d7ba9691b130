use vstd::prelude::*;

verus! {

/// One pixel: three unsigned channels.
#[derive(Clone, Copy, Debug, PartialEq, Eq, Structural)]
pub struct Point {
    pub red: u32,
    pub green: u32,
    pub blue: u32,
}

/// The saturating boost shared by the filters: add 50, or jump to 255
/// once the channel is above 155.
pub open spec fn boost(c: u32) -> u32 {
    if c <= 155 {
        (c + 50) as u32
    } else {
        255
    }
}

pub open spec fn red_pixel(p: Point) -> Point {
    Point { red: boost(p.red), ..p }
}

pub open spec fn green_pixel(p: Point) -> Point {
    Point { green: boost(p.green), ..p }
}

pub open spec fn violet_pixel(p: Point) -> Point {
    Point { red: boost(p.red), blue: boost(p.blue), ..p }
}

/// A pixel is near white when every channel is above 200.
pub open spec fn near_white(p: Point) -> bool {
    p.red > 200 && p.green > 200 && p.blue > 200
}

pub open spec fn white_to_red_pixel(p: Point) -> Point {
    if near_white(p) {
        Point { green: 0, blue: 0, ..p }
    } else {
        p
    }
}

/// The character of a decimal digit.
pub open spec fn digit_char(d: nat) -> char {
    seq!['0', '1', '2', '3', '4', '5', '6', '7', '8', '9'][d as int]
}

/// The decimal text of a number, without sign or leading zeros.
pub open spec fn dec(n: nat) -> Seq<char>
    decreases n,
{
    if n < 10 {
        seq![digit_char(n)]
    } else {
        dec(n / 10).push(digit_char(n % 10))
    }
}

/// The text line of a pixel: `"<r> <g> <b>\n"`.
pub open spec fn pixel_line(p: Point) -> Seq<char> {
    dec(p.red as nat) + seq![' '] + dec(p.green as nat) + seq![' '] + dec(p.blue as nat) + seq![
        '\n',
    ]
}

/// Relies on String::push: the character is appended at the end.
#[verifier::external_body]
pub(crate) fn push_char(s: &mut String, c: char)
    ensures
        final(s)@ == old(s)@.push(c),
{
    s.push(c)
}

fn digit_of(d: u32) -> (c: char)
    requires
        d < 10,
    ensures
        c == digit_char(d as nat),
{
    match d {
        0 => '0',
        1 => '1',
        2 => '2',
        3 => '3',
        4 => '4',
        5 => '5',
        6 => '6',
        7 => '7',
        8 => '8',
        _ => '9',
    }
}

/// Appends the decimal text of `n`.
pub fn push_decimal(s: &mut String, n: u32)
    ensures
        final(s)@ == old(s)@ + dec(n as nat),
    decreases n,
{
    if n >= 10 {
        push_decimal(s, n / 10);
    }
    push_char(s, digit_of(n % 10));
    proof {
        assert(dec(n as nat) == if n < 10 {
            seq![digit_char(n as nat)]
        } else {
            dec((n / 10) as nat).push(digit_char((n % 10) as nat))
        });
    }
    assert(s@ =~= old(s)@ + dec(n as nat));
}

/// Appends the text line of a pixel.
pub fn push_pixel_line(point: &Point, content: &mut String)
    ensures
        final(content)@ == old(content)@ + pixel_line(*point),
{
    push_decimal(content, point.red);
    push_char(content, ' ');
    push_decimal(content, point.green);
    push_char(content, ' ');
    push_decimal(content, point.blue);
    push_char(content, '\n');
    assert(content@ =~= old(content)@ + pixel_line(*point));
}

/// Red filter: boosts red, then appends the pixel's line.
pub fn red_filter(point: &mut Point, content: &mut String)
    ensures
        *final(point) == red_pixel(*old(point)),
        old(point).red <= 155 ==> final(point).red == old(point).red + 50,
        old(point).red > 155 ==> final(point).red == 255,
        final(point).green == old(point).green,
        final(point).blue == old(point).blue,
        final(content)@ == old(content)@ + pixel_line(*final(point)),
{
    if point.red <= 155 {
        point.red = point.red + 50;
    } else {
        point.red = 255;
    }
    push_pixel_line(point, content);
}

/// Green filter: boosts green, then appends the pixel's line.
pub fn green_filter(point: &mut Point, content: &mut String)
    ensures
        *final(point) == green_pixel(*old(point)),
        final(content)@ == old(content)@ + pixel_line(*final(point)),
{
    if point.green <= 155 {
        point.green = point.green + 50;
    } else {
        point.green = 255;
    }
    push_pixel_line(point, content);
}

/// Violet filter: boosts red and blue, then appends the pixel's line.
pub fn violet_filter(point: &mut Point, content: &mut String)
    ensures
        *final(point) == violet_pixel(*old(point)),
        final(content)@ == old(content)@ + pixel_line(*final(point)),
{
    if point.red <= 155 {
        point.red = point.red + 50;
    } else {
        point.red = 255;
    }
    if point.blue <= 155 {
        point.blue = point.blue + 50;
    } else {
        point.blue = 255;
    }
    push_pixel_line(point, content);
}

/// White-to-red filter: a near-white pixel loses green and blue; then
/// appends the pixel's line.
pub fn white_to_red(point: &mut Point, content: &mut String)
    ensures
        *final(point) == white_to_red_pixel(*old(point)),
        final(content)@ == old(content)@ + pixel_line(*final(point)),
{
    if point.red > 200 && point.green > 200 && point.blue > 200 {
        point.green = 0;
        point.blue = 0;
    }
    push_pixel_line(point, content);
}

/// The four filters, each with the file that receives its output.
#[derive(Clone, Copy, Debug, PartialEq, Eq, Structural)]
pub enum FilterKind {
    Red,
    Green,
    Violet,
    WhiteToRed,
}

pub open spec fn filtered(kind: FilterKind, p: Point) -> Point {
    match kind {
        FilterKind::Red => red_pixel(p),
        FilterKind::Green => green_pixel(p),
        FilterKind::Violet => violet_pixel(p),
        FilterKind::WhiteToRed => white_to_red_pixel(p),
    }
}

impl FilterKind {
    /// Applies this filter to the pixel and appends the result's line.
    pub fn apply(&self, point: &mut Point, content: &mut String)
        ensures
            *final(point) == filtered(*self, *old(point)),
            final(content)@ == old(content)@ + pixel_line(*final(point)),
    {
        match self {
            FilterKind::Red => red_filter(point, content),
            FilterKind::Green => green_filter(point, content),
            FilterKind::Violet => violet_filter(point, content),
            FilterKind::WhiteToRed => white_to_red(point, content),
        }
    }

    /// The name of the file that receives this filter's output.
    pub fn file_name(&self) -> (r: &'static str)
        ensures
            *self == FilterKind::Red ==> r@ == "red.ppm"@,
            *self == FilterKind::Green ==> r@ == "green.ppm"@,
            *self == FilterKind::Violet ==> r@ == "violet.ppm"@,
            *self == FilterKind::WhiteToRed ==> r@ == "whiteToRed.ppm"@,
    {
        match self {
            FilterKind::Red => "red.ppm",
            FilterKind::Green => "green.ppm",
            FilterKind::Violet => "violet.ppm",
            FilterKind::WhiteToRed => "whiteToRed.ppm",
        }
    }

    /// All four filters, in the order in which the pipeline starts them.
    pub fn all() -> (r: Vec<FilterKind>)
        ensures
            r@ == seq![
                FilterKind::Red,
                FilterKind::Green,
                FilterKind::Violet,
                FilterKind::WhiteToRed,
            ],
    {
        vec![FilterKind::Red, FilterKind::Green, FilterKind::Violet, FilterKind::WhiteToRed]
    }
}

} // verus!
