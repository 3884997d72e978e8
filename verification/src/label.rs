//! Axis label formatting and frame annotation.
//!
//! Labels are rendered from milli-unit values as decimal strings with
//! one fractional digit.  Annotation takes the canvas text block and
//! appends the y-range labels to its first and last row, optional tick
//! labels to intermediate rows, and a final row carrying the x-range
//! labels.

use vstd::prelude::*;
use vstd::string::StrSliceExecFns;

verus! {

/// The character of one decimal digit.
pub open spec fn digit_char(d: int) -> char {
    if d == 0 {
        '0'
    } else if d == 1 {
        '1'
    } else if d == 2 {
        '2'
    } else if d == 3 {
        '3'
    } else if d == 4 {
        '4'
    } else if d == 5 {
        '5'
    } else if d == 6 {
        '6'
    } else if d == 7 {
        '7'
    } else if d == 8 {
        '8'
    } else {
        '9'
    }
}

/// The decimal digit characters of a nonnegative number, most
/// significant first.
pub open spec fn dec_digits(n: int) -> Seq<char>
    decreases n,
{
    if n < 10 {
        seq![digit_char(n)]
    } else {
        dec_digits(n / 10).push(digit_char(n % 10))
    }
}

/// The label of a milli-unit value with one decimal digit: sign,
/// integer part, decimal point and the tenths digit, the value rounded
/// to the nearest tenth with halves away from zero.
pub open spec fn fixed_label(v: int) -> Seq<char> {
    let m = if v < 0 {
        -v
    } else {
        v
    };
    let t = (m + 50) / 100;
    (if v < 0 {
        seq!['-']
    } else {
        Seq::<char>::empty()
    }) + dec_digits(t / 10) + seq!['.'] + seq![digit_char(t % 10)]
}

/// Returns the character of one decimal digit.
fn digit_of(d: u64) -> (c: char)
    requires
        d < 10,
    ensures
        c == digit_char(d as int),
{
    if d == 0 {
        '0'
    } else if d == 1 {
        '1'
    } else if d == 2 {
        '2'
    } else if d == 3 {
        '3'
    } else if d == 4 {
        '4'
    } else if d == 5 {
        '5'
    } else if d == 6 {
        '6'
    } else if d == 7 {
        '7'
    } else if d == 8 {
        '8'
    } else {
        '9'
    }
}

/// Appends the decimal digits of `n`, most significant first.
fn push_digits(n: u64, out: &mut Vec<char>)
    ensures
        final(out)@ == old(out)@ + dec_digits(n as int),
    decreases n,
{
    if n < 10 {
        out.push(digit_of(n));
        proof {
            assert(out@ =~= old(out)@ + dec_digits(n as int));
        }
    } else {
        push_digits(n / 10, out);
        out.push(digit_of(n % 10));
        proof {
            assert(out@ =~= old(out)@ + dec_digits(n as int));
        }
    }
}

/// Relies on `String::push`: appends one character to the string.
#[verifier::external_body]
fn string_push(s: &mut String, c: char)
    ensures
        final(s)@ == old(s)@.push(c),
{
    s.push(c)
}

/// Collects the characters of a string into a vector.
pub fn str_chars(s: &str) -> (r: Vec<char>)
    ensures
        r@ == s@,
{
    let n = s.unicode_len();
    let mut r: Vec<char> = Vec::new();
    let mut k: usize = 0;
    while k < n
        invariant
            n == s@.len(),
            k <= n,
            r@ == s@.take(k as int),
        decreases n - k,
    {
        let c = s.get_char(k);
        r.push(c);
        proof {
            assert(r@ =~= s@.take(k as int + 1));
        }
        k = k + 1;
    }
    proof {
        assert(s@.take(n as int) =~= s@);
    }
    r
}

/// Builds a string from a vector of characters.
pub fn chars_to_string(v: &Vec<char>) -> (s: String)
    ensures
        s@ == v@,
{
    let mut s = String::new();
    let mut k: usize = 0;
    while k < v.len()
        invariant
            k <= v@.len(),
            s@ == v@.take(k as int),
        decreases v@.len() - k,
    {
        string_push(&mut s, v[k]);
        proof {
            assert(s@ =~= v@.take(k as int + 1));
        }
        k = k + 1;
    }
    proof {
        assert(v@.take(v@.len() as int) =~= v@);
    }
    s
}

/// Renders a milli-unit value as its one-decimal label.
pub fn format_fixed(v: i64) -> (s: String)
    ensures
        s@ == fixed_label(v as int),
{
    let mut out: Vec<char> = Vec::new();
    if v < 0 {
        out.push('-');
    }
    let m: u64 = if v >= 0 {
        v as u64
    } else {
        (-(v as i128)) as u64
    };
    let t = (m + 50) / 100;
    push_digits(t / 10, &mut out);
    out.push('.');
    out.push(digit_of(t % 10));
    proof {
        assert(out@ =~= fixed_label(v as int));
    }
    chars_to_string(&out)
}

/// A space character substituted for the Braille blank, so that empty
/// canvas cells keep the cell width of Braille glyphs.
pub open spec fn blank_sub(c: char) -> char {
    if c == ' ' {
        '\u{2800}'
    } else {
        c
    }
}

/// The frame text with every plain space replaced by the Braille blank.
pub open spec fn blanked(s: Seq<char>) -> Seq<char> {
    s.map_values(|c: char| blank_sub(c))
}

/// Replaces every plain space by the Braille blank.
pub fn blank_frame(cs: &Vec<char>) -> (r: Vec<char>)
    ensures
        r@ == blanked(cs@),
{
    let mut r: Vec<char> = Vec::new();
    let mut k: usize = 0;
    while k < cs.len()
        invariant
            k <= cs@.len(),
            r@ == blanked(cs@.take(k as int)),
        decreases cs@.len() - k,
    {
        let c = cs[k];
        if c == ' ' {
            r.push('\u{2800}');
        } else {
            r.push(c);
        }
        proof {
            assert(r@ =~= blanked(cs@.take(k as int + 1)));
        }
        k = k + 1;
    }
    proof {
        assert(cs@.take(cs@.len() as int) =~= cs@);
        assert(r@ =~= blanked(cs@));
    }
    r
}

/// The lines of a text, split on the line-break character; a text
/// without one is a single line, and every break adds one line.
pub open spec fn split_lines(s: Seq<char>) -> Seq<Seq<char>>
    decreases s.len(),
{
    if s.len() == 0 {
        seq![Seq::<char>::empty()]
    } else if s[0] == '\n' {
        seq![Seq::<char>::empty()] + split_lines(s.skip(1))
    } else {
        let rest = split_lines(s.skip(1));
        seq![seq![s[0]] + rest[0]] + rest.skip(1)
    }
}

/// A split always yields at least one line.
pub proof fn lemma_split_lines_nonempty(s: Seq<char>)
    ensures
        split_lines(s).len() >= 1,
    decreases s.len(),
{
    if s.len() != 0 {
        lemma_split_lines_nonempty(s.skip(1));
    }
}

/// Extending a text by one character extends its split: a line break
/// opens a new empty last line, any other character extends the last
/// line.
proof fn lemma_split_snoc(a: Seq<char>, c: char)
    ensures
        c == '\n' ==> split_lines(a.push(c)) =~~= split_lines(a) + seq![Seq::<char>::empty()],
        c != '\n' ==> split_lines(a.push(c)) =~~= split_lines(a).update(
            split_lines(a).len() - 1,
            split_lines(a).last().push(c),
        ),
    decreases a.len(),
{
    lemma_split_lines_nonempty(a);
    let s = a.push(c);
    if a.len() == 0 {
        let e = Seq::<char>::empty();
        assert(s.len() == 1);
        assert(s[0] == c);
        assert(s.skip(1) =~= e);
        assert(split_lines(e) == seq![Seq::<char>::empty()]);
        assert(split_lines(a) == seq![Seq::<char>::empty()]);
        if c == '\n' {
            assert(split_lines(s) == seq![Seq::<char>::empty()] + split_lines(s.skip(1)));
            assert(split_lines(s) =~~= split_lines(a) + seq![Seq::<char>::empty()]);
        } else {
            let rest = split_lines(s.skip(1));
            assert(rest == seq![Seq::<char>::empty()]);
            assert(split_lines(s) == seq![seq![s[0]] + rest[0]] + rest.skip(1));
            assert(seq![s[0]] + rest[0] =~= seq![c]);
            assert(rest.skip(1) =~= Seq::<Seq<char>>::empty());
            assert(split_lines(a).last().push(c) =~= seq![c]);
            assert(split_lines(s) =~~= split_lines(a).update(
                split_lines(a).len() - 1,
                split_lines(a).last().push(c),
            ));
        }
    } else {
        lemma_split_snoc(a.skip(1), c);
        lemma_split_lines_nonempty(a.skip(1));
        assert(s.skip(1) =~= a.skip(1).push(c));
        assert(s[0] == a[0]);
        if c == '\n' {
            assert(split_lines(s) =~~= split_lines(a) + seq![Seq::<char>::empty()]);
        } else {
            if a[0] == '\n' {
                assert(split_lines(s) =~~= split_lines(a).update(
                    split_lines(a).len() - 1,
                    split_lines(a).last().push(c),
                ));
            } else {
                let rest = split_lines(a.skip(1));
                let rest2 = split_lines(s.skip(1));
                if rest.len() == 1 {
                    assert(rest2[0] == rest[0].push(c));
                    assert(split_lines(s) =~~= split_lines(a).update(
                        split_lines(a).len() - 1,
                        split_lines(a).last().push(c),
                    ));
                } else {
                    assert(rest2[0] == rest[0]);
                    assert(split_lines(s) =~~= split_lines(a).update(
                        split_lines(a).len() - 1,
                        split_lines(a).last().push(c),
                    ));
                }
            }
        }
    }
}

/// The sequence views of a vector of character vectors.
pub open spec fn views(ls: Seq<Vec<char>>) -> Seq<Seq<char>> {
    Seq::new(ls.len(), |i: int| ls[i]@)
}

/// Splits a character vector into its lines.
pub fn split_lines_exec(cs: &Vec<char>) -> (r: Vec<Vec<char>>)
    ensures
        views(r@) == split_lines(cs@),
{
    let mut done: Vec<Vec<char>> = Vec::new();
    let mut cur: Vec<char> = Vec::new();
    let mut k: usize = 0;
    while k < cs.len()
        invariant
            k <= cs@.len(),
            views(done@).push(cur@) =~~= split_lines(cs@.take(k as int)),
        decreases cs@.len() - k,
    {
        proof {
            assert(cs@.take(k as int + 1) =~= cs@.take(k as int).push(cs@[k as int]));
            lemma_split_snoc(cs@.take(k as int), cs@[k as int]);
            lemma_split_lines_nonempty(cs@.take(k as int));
        }
        let c = cs[k];
        if c == '\n' {
            done.push(cur);
            cur = Vec::new();
            proof {
                assert(views(done@).push(cur@) =~~= split_lines(cs@.take(k as int + 1)));
            }
        } else {
            cur.push(c);
            proof {
                assert(views(done@).push(cur@) =~~= split_lines(cs@.take(k as int + 1)));
            }
        }
        k = k + 1;
    }
    done.push(cur);
    proof {
        assert(cs@.take(cs@.len() as int) =~= cs@);
        assert(views(done@) =~~= split_lines(cs@));
    }
    done
}

/// `n` space characters (none for a nonpositive count).
pub open spec fn spec_spaces(n: int) -> Seq<char>
    decreases n,
{
    if n <= 0 {
        Seq::empty()
    } else {
        spec_spaces(n - 1).push(' ')
    }
}

/// Appends `n` spaces.
fn push_spaces(out: &mut Vec<char>, n: usize)
    ensures
        final(out)@ == old(out)@ + spec_spaces(n as int),
{
    let mut k: usize = 0;
    while k < n
        invariant
            k <= n,
            out@ == old(out)@ + spec_spaces(k as int),
        decreases n - k,
    {
        out.push(' ');
        proof {
            assert(out@ =~= old(out)@ + spec_spaces(k as int + 1));
        }
        k = k + 1;
    }
}

/// Appends the characters of `src`.
fn push_all(out: &mut Vec<char>, src: &Vec<char>)
    ensures
        final(out)@ == old(out)@ + src@,
{
    let mut k: usize = 0;
    while k < src.len()
        invariant
            k <= src@.len(),
            out@ == old(out)@ + src@.take(k as int),
        decreases src@.len() - k,
    {
        out.push(src[k]);
        proof {
            assert(out@ =~= old(out)@ + src@.take(k as int + 1));
        }
        k = k + 1;
    }
    proof {
        assert(src@.take(src@.len() as int) =~= src@);
    }
}

/// A label appended after one separating space.
pub open spec fn sp_label(l: Seq<char>) -> Seq<char> {
    seq![' '] + l
}

/// The tick label, if any, that line `i` of `nlines` receives: every
/// `spacing`-th line carries the next label, and the two label rows at
/// the very top and bottom are left to the range labels.
pub open spec fn tick_suffix(i: int, nlines: int, ticks: Seq<Seq<char>>, spacing: int) -> Seq<
    char,
> {
    if spacing >= 1 && i % spacing == 0 && 1 <= i / spacing <= ticks.len() && i <= nlines - 2 {
        sp_label(ticks[i / spacing - 1])
    } else {
        Seq::empty()
    }
}

/// The frame lines with their labels appended: the upper range label
/// on the first line, tick labels on their lines, the lower range
/// label on the last line.
pub open spec fn annotated_lines(
    ls: Seq<Seq<char>>,
    ticks: Seq<Seq<char>>,
    spacing: int,
    yminl: Seq<char>,
    ymaxl: Seq<char>,
) -> Seq<Seq<char>> {
    Seq::new(
        ls.len(),
        |i: int|
            ls[i] + (if i == 0 {
                sp_label(ymaxl)
            } else {
                Seq::empty()
            }) + tick_suffix(i, ls.len() as int, ticks, spacing) + (if i == ls.len() - 1 {
                sp_label(yminl)
            } else {
                Seq::empty()
            }),
    )
}

/// The lines joined back with line breaks.
pub open spec fn join_lines(ls: Seq<Seq<char>>) -> Seq<char>
    decreases ls.len(),
{
    if ls.len() == 0 {
        Seq::empty()
    } else if ls.len() == 1 {
        ls[0]
    } else {
        join_lines(ls.drop_last()) + seq!['\n'] + ls.last()
    }
}

/// The bottom row: the left x-range label, padded with spaces so that
/// the right x-range label starts at half the viewport width, as far
/// as the labels allow.
pub open spec fn bottom_line(w: u32, xminl: Seq<char>, xmaxl: Seq<char>) -> Seq<char> {
    xminl + spec_spaces((w / 2) as int - xmaxl.len() - xminl.len()) + xmaxl
}

/// The annotated frame: a frame without a line break is returned
/// unchanged; otherwise every line receives its labels, and a bottom
/// row with the x-range labels and a final line break is appended.
pub open spec fn annotate_spec(
    ft: Seq<char>,
    w: u32,
    xminl: Seq<char>,
    xmaxl: Seq<char>,
    yminl: Seq<char>,
    ymaxl: Seq<char>,
    ticks: Seq<Seq<char>>,
    spacing: int,
) -> Seq<char> {
    let ls = split_lines(ft);
    if ls.len() <= 1 {
        ft
    } else {
        join_lines(annotated_lines(ls, ticks, spacing, yminl, ymaxl)) + seq!['\n'] + bottom_line(
            w,
            xminl,
            xmaxl,
        ) + seq!['\n']
    }
}

/// The sequence views of a vector of label strings.
pub open spec fn label_views(ts: Seq<String>) -> Seq<Seq<char>> {
    Seq::new(ts.len(), |i: int| ts[i]@)
}

/// Annotates a frame text with the given label strings: the y-range
/// labels frame the first and last line, every `row_spacing`-th line
/// receives the next tick label, and a bottom row carries the x-range
/// labels.
pub fn annotate_with_labels(
    frame: &str,
    width: u32,
    xmin_label: &str,
    xmax_label: &str,
    ymin_label: &str,
    ymax_label: &str,
    ticks: &Vec<String>,
    row_spacing: u32,
) -> (out: String)
    ensures
        out@ == annotate_spec(
            frame@,
            width,
            xmin_label@,
            xmax_label@,
            ymin_label@,
            ymax_label@,
            label_views(ticks@),
            row_spacing as int,
        ),
{
    let cs = str_chars(frame);
    let lines = split_lines_exec(&cs);
    proof {
        lemma_split_lines_nonempty(cs@);
    }
    if lines.len() <= 1 {
        return chars_to_string(&cs);
    }
    let yminv = str_chars(ymin_label);
    let ymaxv = str_chars(ymax_label);
    let xminv = str_chars(xmin_label);
    let xmaxv = str_chars(xmax_label);
    let ghost als = annotated_lines(
        split_lines(cs@),
        label_views(ticks@),
        row_spacing as int,
        ymin_label@,
        ymax_label@,
    );
    let n = lines.len();
    let mut out: Vec<char> = Vec::new();
    let mut idx: usize = 0;
    while idx < n
        invariant
            1 <= n == lines@.len(),
            views(lines@) == split_lines(cs@),
            als == annotated_lines(
                split_lines(cs@),
                label_views(ticks@),
                row_spacing as int,
                ymin_label@,
                ymax_label@,
            ),
            yminv@ == ymin_label@,
            ymaxv@ == ymax_label@,
            idx <= n,
            out@ == join_lines(als.take(idx as int)),
        decreases n - idx,
    {
        if idx > 0 {
            out.push('\n');
        }
        push_all(&mut out, &lines[idx]);
        if idx == 0 {
            out.push(' ');
            push_all(&mut out, &ymaxv);
        }
        if row_spacing >= 1 && idx % (row_spacing as usize) == 0 {
            let t = idx / (row_spacing as usize);
            if 1 <= t && t <= ticks.len() && n >= 2 && idx <= n - 2 {
                out.push(' ');
                let tv = str_chars(ticks[t - 1].as_str());
                push_all(&mut out, &tv);
            }
        }
        if idx == n - 1 {
            out.push(' ');
            push_all(&mut out, &yminv);
        }
        proof {
            assert(als.take(idx as int + 1).drop_last() =~~= als.take(idx as int));
            assert(als[idx as int] == split_lines(cs@)[idx as int] + (if idx == 0 {
                sp_label(ymax_label@)
            } else {
                Seq::<char>::empty()
            }) + tick_suffix(
                idx as int,
                split_lines(cs@).len() as int,
                label_views(ticks@),
                row_spacing as int,
            ) + (if idx == n - 1 {
                sp_label(ymin_label@)
            } else {
                Seq::<char>::empty()
            }));
            assert(out@ =~= join_lines(als.take(idx as int + 1)));
        }
        idx = idx + 1;
    }
    proof {
        assert(als.take(n as int) =~~= als);
    }
    out.push('\n');
    push_all(&mut out, &xminv);
    let w2 = (width / 2) as usize;
    let pad = if w2 >= xmaxv.len() && w2 - xmaxv.len() >= xminv.len() {
        w2 - xmaxv.len() - xminv.len()
    } else {
        0
    };
    proof {
        lemma_spaces_nonpositive((width / 2) as int - xmax_label@.len() - xmin_label@.len());
    }
    push_spaces(&mut out, pad);
    push_all(&mut out, &xmaxv);
    out.push('\n');
    proof {
        assert(out@ =~= annotate_spec(
            frame@,
            width,
            xmin_label@,
            xmax_label@,
            ymin_label@,
            ymax_label@,
            label_views(ticks@),
            row_spacing as int,
        ));
    }
    chars_to_string(&out)
}

/// A nonpositive count of spaces is the empty sequence.
proof fn lemma_spaces_nonpositive(n: int)
    ensures
        n <= 0 ==> spec_spaces(n) == Seq::<char>::empty(),
{
}

} // verus!
