use vstd::prelude::*;
use crate::pixel::{FilterKind, Point, filtered, pixel_line, push_char, push_pixel_line};
use crate::text::{chars_of, lines_of, numbers_of, parse_numbers, split_lines};

verus! {

/// A parsed image: three header lines kept as text, and the pixel payload.
pub struct Picture {
    /// The format token (first line).
    pub format: String,
    /// The dimensions, "<width> <height>" (second line).
    pub size: String,
    /// The maximum channel value (third line).
    pub colors: String,
    /// Every later line, each ended by a newline.
    pub value: String,
}

/// Line `k` of `ls`, or nothing when there are fewer lines.
pub open spec fn line_at(ls: Seq<Seq<char>>, k: int) -> Seq<char> {
    if 0 <= k < ls.len() {
        ls[k]
    } else {
        seq![]
    }
}

/// The lines after the third, each followed by a newline.
pub open spec fn payload_of(ls: Seq<Seq<char>>) -> Seq<char>
    decreases ls.len(),
{
    if ls.len() <= 3 {
        seq![]
    } else {
        payload_of(ls.drop_last()) + ls.last() + seq!['\n']
    }
}

/// `p` is what decoding `text` gives.
pub open spec fn decodes_to(text: Seq<char>, p: Picture) -> bool {
    let ls = lines_of(text);
    &&& p.format@ == line_at(ls, 0)
    &&& p.size@ == line_at(ls, 1)
    &&& p.colors@ == line_at(ls, 2)
    &&& p.value@ == payload_of(ls)
}

/// The header text: the three header lines, each ended by a newline.
pub open spec fn header_text(p: Picture) -> Seq<char> {
    p.format@ + seq!['\n'] + p.size@ + seq!['\n'] + p.colors@ + seq!['\n']
}

/// The pixels of a flat channel list: each full group of three values, in
/// order; a partial group at the end is dropped.
pub open spec fn pixels_of(nums: Seq<u32>) -> Seq<Point> {
    Seq::new(
        nums.len() / 3,
        |k: int| Point { red: nums[3 * k], green: nums[3 * k + 1], blue: nums[3 * k + 2] },
    )
}

/// The pixels of a picture's payload.
pub open spec fn picture_pixels(p: Picture) -> Seq<Point> {
    pixels_of(numbers_of(p.value@))
}

/// One text line per pixel, in order.
pub open spec fn lines_text(ps: Seq<Point>) -> Seq<char>
    decreases ps.len(),
{
    if ps.len() == 0 {
        seq![]
    } else {
        lines_text(ps.drop_last()) + pixel_line(ps.last())
    }
}

/// The text of a picture's header followed by the given pixels.
pub open spec fn encoded(p: Picture, ps: Seq<Point>) -> Seq<char> {
    header_text(p) + lines_text(ps)
}

/// Each pixel through a filter.
pub open spec fn filter_all(kind: FilterKind, ps: Seq<Point>) -> Seq<Point> {
    ps.map_values(|q: Point| filtered(kind, q))
}

/// The output of one filter on a picture.
pub open spec fn rendered(p: Picture, kind: FilterKind) -> Seq<char> {
    encoded(p, filter_all(kind, picture_pixels(p)))
}

fn append_chars(s: &mut String, cs: &Vec<char>)
    ensures
        final(s)@ == old(s)@ + cs@,
{
    let mut i: usize = 0;
    while i < cs.len()
        invariant
            i <= cs.len(),
            s@ == old(s)@ + cs@.take(i as int),
        decreases cs.len() - i,
    {
        push_char(s, cs[i]);
        i = i + 1;
        assert(s@ =~= old(s)@ + cs@.take(i as int));
    }
    assert(cs@.take(i as int) =~= cs@);
}

proof fn lemma_payload_push(ls: Seq<Seq<char>>, l: Seq<char>)
    requires
        ls.len() >= 3,
    ensures
        payload_of(ls.push(l)) == payload_of(ls) + l + seq!['\n'],
{
    assert(ls.push(l).drop_last() =~= ls);
}

impl Picture {
    /// Decodes the text of an image: the first three lines are the header,
    /// the rest, each re-ended by a newline, the payload.
    pub fn decode(text: &str) -> (r: Picture)
        ensures
            decodes_to(text@, r),
    {
        let cs = chars_of(text);
        let ls = split_lines(&cs);
        let ghost l = lines_of(text@);
        let mut format = String::new();
        let mut size = String::new();
        let mut colors = String::new();
        let mut value = String::new();
        if ls.len() > 0 {
            append_chars(&mut format, &ls[0]);
        }
        if ls.len() > 1 {
            append_chars(&mut size, &ls[1]);
        }
        if ls.len() > 2 {
            append_chars(&mut colors, &ls[2]);
        }
        assert(format@ =~= line_at(l, 0));
        assert(size@ =~= line_at(l, 1));
        assert(colors@ =~= line_at(l, 2));
        let mut k: usize = 3;
        if ls.len() < 3 {
            assert(payload_of(l) == Seq::<char>::empty());
        } else {
            assert(payload_of(l.take(3)) == Seq::<char>::empty());
            while k < ls.len()
                invariant
                    3 <= k <= ls.len(),
                    ls.len() == l.len(),
                    forall|j: int| 0 <= j < ls.len() ==> #[trigger] ls[j]@ == l[j],
                    value@ == payload_of(l.take(k as int)),
                decreases ls.len() - k,
            {
                proof {
                    assert(l.take(k as int + 1) =~= l.take(k as int).push(l[k as int]));
                    lemma_payload_push(l.take(k as int), l[k as int]);
                }
                append_chars(&mut value, &ls[k]);
                push_char(&mut value, '\n');
                k = k + 1;
            }
            assert(l.take(k as int) =~= l);
        }
        Picture { format, size, colors, value }
    }

    /// The header text of the picture.
    pub fn header(&self) -> (r: String)
        ensures
            r@ == header_text(*self),
    {
        let mut content = String::new();
        content.append(self.format.as_str());
        push_char(&mut content, '\n');
        content.append(self.size.as_str());
        push_char(&mut content, '\n');
        content.append(self.colors.as_str());
        push_char(&mut content, '\n');
        assert(content@ =~= header_text(*self));
        content
    }

    /// The pixels of the payload: its integers, unparsable tokens skipped,
    /// taken three at a time; a partial group at the end is dropped.
    pub fn pixels(&self) -> (r: Vec<Point>)
        ensures
            r@ == picture_pixels(*self),
    {
        let cs = chars_of(self.value.as_str());
        let nums = parse_numbers(&cs);
        let ghost ps = picture_pixels(*self);
        let mut r: Vec<Point> = Vec::new();
        let mut i: usize = 0;
        while nums.len() - i > 2
            invariant
                nums@ == numbers_of(self.value@),
                ps == pixels_of(nums@),
                i == 3 * r.len(),
                i <= nums.len(),
                r@ == ps.take(r.len() as int),
            decreases nums.len() - i,
        {
            r.push(Point { red: nums[i], green: nums[i + 1], blue: nums[i + 2] });
            i = i + 3;
            assert(r@ =~= ps.take(r.len() as int));
        }
        assert(r@ =~= ps);
        r
    }

    /// The picture's text with the given pixels: the header, then one
    /// `"<r> <g> <b>\n"` line per pixel.
    pub fn encode(&self, pixels: &Vec<Point>) -> (r: String)
        ensures
            r@ == encoded(*self, pixels@),
    {
        let mut content = self.header();
        let mut i: usize = 0;
        while i < pixels.len()
            invariant
                i <= pixels.len(),
                content@ == header_text(*self) + lines_text(pixels@.take(i as int)),
            decreases pixels.len() - i,
        {
            assert(pixels@.take(i as int + 1).drop_last() =~= pixels@.take(i as int));
            push_pixel_line(&pixels[i], &mut content);
            i = i + 1;
            assert(content@ =~= header_text(*self) + lines_text(pixels@.take(i as int)));
        }
        assert(pixels@.take(i as int) =~= pixels@);
        content
    }

    /// The output of one filter: the header, then each pixel through the
    /// filter, one line each.
    pub fn render(&self, kind: FilterKind) -> (r: String)
        ensures
            r@ == rendered(*self, kind),
    {
        let mut content = self.header();
        let pixels = self.pixels();
        let ghost out = filter_all(kind, pixels@);
        let mut i: usize = 0;
        while i < pixels.len()
            invariant
                i <= pixels.len(),
                pixels@ == picture_pixels(*self),
                out == filter_all(kind, pixels@),
                content@ == header_text(*self) + lines_text(out.take(i as int)),
            decreases pixels.len() - i,
        {
            let mut point = pixels[i];
            kind.apply(&mut point, &mut content);
            assert(out.take(i as int + 1).drop_last() =~= out.take(i as int));
            i = i + 1;
            assert(content@ =~= header_text(*self) + lines_text(out.take(i as int)));
        }
        assert(out.take(i as int) =~= out);
        content
    }
}

} // verus!
