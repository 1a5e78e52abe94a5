use vstd::prelude::*;
use vstd::string::*;

use crate::path::PathCommand;

verus! {

/// The largest number of decimal places that the SVG output writes.
pub const MAX_FORMAT_PRECISION: usize = 12;

/// Caps a requested number of decimal places at [`MAX_FORMAT_PRECISION`],
/// so that a huge request cannot make the output allocate a huge string.
pub fn bounded_precision(precision: usize) -> (bounded: usize)
    ensures
        bounded == if precision <= MAX_FORMAT_PRECISION { precision } else { MAX_FORMAT_PRECISION },
{
    if precision <= MAX_FORMAT_PRECISION {
        precision
    } else {
        MAX_FORMAT_PRECISION
    }
}

/// The SVG path-data output format.
#[derive(Debug, Clone, Copy, PartialEq, Eq, Structural)]
pub struct SvgPathFormat {
    precision: usize,
}

impl SvgPathFormat {
    /// Creates an SVG path-data format with the given number of decimal places.
    pub fn new(precision: usize) -> (format: Self)
        ensures
            format.spec_precision() == precision,
    {
        SvgPathFormat { precision }
    }

    /// The number of decimal places requested for coordinates.
    pub closed spec fn spec_precision(&self) -> usize {
        self.precision
    }

    /// The number of decimal places requested for coordinates.
    pub fn precision(&self) -> (precision: usize)
        ensures
            precision == self.spec_precision(),
    {
        self.precision
    }
}

impl Default for SvgPathFormat {
    /// Six decimal places.
    fn default() -> (format: Self)
        ensures
            format.spec_precision() == 6,
    {
        SvgPathFormat::new(6)
    }
}

/// The text of a point: its two coordinates, already written as numbers.
#[derive(Debug, Clone, PartialEq, Eq)]
pub struct PointText {
    /// The x coordinate as text.
    pub x: String,
    /// The y coordinate as text.
    pub y: String,
}

/// `s` without its trailing `'0'` characters.
pub open spec fn strip_trailing_zeros(s: Seq<char>) -> Seq<char>
    decreases s.len(),
{
    if s.len() > 0 && s.last() == '0' {
        strip_trailing_zeros(s.drop_last())
    } else {
        s
    }
}

/// The tidy form of a decimal number: where it has a decimal point, trailing
/// zeros and then a bare trailing point are removed; `-0` becomes `0`.
pub open spec fn tidy_number(s: Seq<char>) -> Seq<char> {
    let t = if s.contains('.') {
        let u = strip_trailing_zeros(s);
        if u.len() > 0 && u.last() == '.' {
            u.drop_last()
        } else {
            u
        }
    } else {
        s
    };
    if t == seq!['-', '0'] {
        seq!['0']
    } else {
        t
    }
}

proof fn lemma_strip_shape(s: Seq<char>)
    ensures
        strip_trailing_zeros(s).len() <= s.len(),
        strip_trailing_zeros(s) == s.take(strip_trailing_zeros(s).len() as int),
        strip_trailing_zeros(s).len() > 0 ==> strip_trailing_zeros(s).last() != '0',
        forall|k: int| strip_trailing_zeros(s).len() <= k < s.len() ==> s[k] == '0',
    decreases s.len(),
{
    if s.len() > 0 && s.last() == '0' {
        lemma_strip_shape(s.drop_last());
        let t = strip_trailing_zeros(s.drop_last());
        assert(t == s.take(t.len() as int)) by {
            assert(s.drop_last().take(t.len() as int) =~= s.take(t.len() as int));
        }
        assert forall|k: int| t.len() <= k < s.len() implies s[k] == '0' by {
            if k < s.len() - 1 {
                assert(s.drop_last()[k] == s[k]);
            }
        }
    } else {
        assert(s.take(s.len() as int) =~= s);
    }
}

/// Rewrites a number written with a fixed number of decimals in its tidy
/// form: trailing zeros after the decimal point go, then a bare point, and
/// `-0` becomes `0`.
pub fn tidy_number_text(text: &str) -> (tidy: String)
    ensures
        tidy@ == tidy_number(text@),
{
    let len: usize = text.unicode_len();
    let mut has_point = false;
    let mut i: usize = 0;
    while i < len
        invariant
            len == text@.len(),
            i <= len,
            has_point <==> exists|k: int| 0 <= k < i && text@[k] == '.',
        decreases len - i,
    {
        if text.get_char(i) == '.' {
            has_point = true;
        }
        i += 1;
    }
    assert(has_point <==> text@.contains('.'));

    let mut end: usize = len;
    assert(text@.take(len as int) =~= text@);
    if has_point {
        while end > 0 && text.get_char(end - 1) == '0'
            invariant
                len == text@.len(),
                end <= len,
                strip_trailing_zeros(text@.take(end as int)) == strip_trailing_zeros(text@),
            decreases end,
        {
            assert(text@.take(end as int).drop_last() =~= text@.take(end - 1));
            end -= 1;
        }
        assert(strip_trailing_zeros(text@.take(end as int)) == text@.take(end as int));
        if end > 0 && text.get_char(end - 1) == '.' {
            end -= 1;
            assert(text@.take(end + 1).drop_last() =~= text@.take(end as int));
        }
    } else {
        assert(text@.take(len as int) =~= text@);
    }
    let kept = text.substring_char(0, end);
    assert(kept@ == text@.take(end as int));
    if end == 2 && kept.get_char(0) == '-' && kept.get_char(1) == '0' {
        assert(kept@ =~= seq!['-', '0']);
        let zero = String::from_str("0");
        proof {
            reveal_strlit("0");
        }
        assert(zero@ =~= seq!['0']);
        zero
    } else {
        let out = String::from_str(kept);
        proof {
            if kept@ == seq!['-', '0'] {
                assert(kept@[0] == '-' && kept@[1] == '0');
            }
        }
        out
    }
}

/// Law: once tidy, a number that still has a decimal point ends neither in
/// `'0'` nor in `'.'` (for text with at most one decimal point, as a number
/// written with a fixed number of decimals has).
pub proof fn lemma_tidy_number_has_no_trailing_zero(s: Seq<char>)
    requires
        forall|a: int, b: int| 0 <= a < b < s.len() && s[a] == '.' ==> s[b] != '.',
    ensures
        tidy_number(s).contains('.') ==> tidy_number(s).last() != '0' && tidy_number(s).last() != '.',
{
    let t = tidy_number(s);
    if t.contains('.') {
        lemma_strip_shape(s);
        let u = strip_trailing_zeros(s);
        let j = choose|j: int| 0 <= j < t.len() && t[j] == '.';
        assert(s.contains('.')) by {
            if t == seq!['0'] {
                assert(false);
            }
            assert(t[j] == s[j]);
        }
        if u.len() > 0 && u.last() == '.' {
            assert(u.drop_last()[j] == s[j]);
            assert(s[u.len() - 1] == '.');
            assert(false);
        }
    }
}

/// The text of a point: `x,y`.
pub open spec fn point_text(p: PointText) -> Seq<char> {
    p.x@ + seq![','] + p.y@
}

/// The SVG text of one command.
pub open spec fn command_text(c: PathCommand<PointText>) -> Seq<char> {
    match c {
        PathCommand::MoveTo(p) => seq!['M', ' '] + point_text(p),
        PathCommand::LineTo(p) => seq!['L', ' '] + point_text(p),
        PathCommand::CubicTo { ctrl1, ctrl2, to } => seq!['C', ' '] + point_text(ctrl1) + seq![' ']
            + point_text(ctrl2) + seq![' '] + point_text(to),
        PathCommand::Close => seq!['Z'],
    }
}

/// SVG path data: the texts of the commands, separated by single spaces.
pub open spec fn svg_text(commands: Seq<PathCommand<PointText>>) -> Seq<char>
    decreases commands.len(),
{
    if commands.len() == 0 {
        Seq::empty()
    } else if commands.len() == 1 {
        command_text(commands[0])
    } else {
        svg_text(commands.drop_last()) + seq![' '] + command_text(commands.last())
    }
}

/// Law: writing one more command appends its text, after a single space
/// unless it is the first: `M x,y`, `L x,y`, `C x1,y1 x2,y2 x,y` with each
/// point written from its own two coordinates, or `Z`.
pub proof fn lemma_svg_text_appends_command(commands: Seq<PathCommand<PointText>>, c: PathCommand<PointText>)
    ensures
        svg_text(commands.push(c)) == svg_text(commands)
            + (if commands.len() == 0 { Seq::<char>::empty() } else { seq![' '] })
            + match c {
                PathCommand::MoveTo(p) => seq!['M', ' '] + p.x@ + seq![','] + p.y@,
                PathCommand::LineTo(p) => seq!['L', ' '] + p.x@ + seq![','] + p.y@,
                PathCommand::CubicTo { ctrl1, ctrl2, to } => seq!['C', ' '] + ctrl1.x@ + seq![','] + ctrl1.y@
                    + seq![' '] + ctrl2.x@ + seq![','] + ctrl2.y@ + seq![' '] + to.x@ + seq![','] + to.y@,
                PathCommand::Close => seq!['Z'],
            },
{
    let all = commands.push(c);
    assert(all.drop_last() =~= commands);
    assert(all.last() == c);
    if commands.len() == 0 {
        assert(all[0] == c);
        assert(svg_text(commands) =~= Seq::<char>::empty());
    }
    match c {
        PathCommand::MoveTo(p) => {
            assert(command_text(c) =~= seq!['M', ' '] + p.x@ + seq![','] + p.y@);
        },
        PathCommand::LineTo(p) => {
            assert(command_text(c) =~= seq!['L', ' '] + p.x@ + seq![','] + p.y@);
        },
        PathCommand::CubicTo { ctrl1, ctrl2, to } => {
            assert(command_text(c) =~= seq!['C', ' '] + ctrl1.x@ + seq![','] + ctrl1.y@ + seq![' '] + ctrl2.x@
                + seq![','] + ctrl2.y@ + seq![' '] + to.x@ + seq![','] + to.y@);
        },
        PathCommand::Close => {},
    }
    if commands.len() == 0 {
        assert(svg_text(all) =~= svg_text(commands) + Seq::<char>::empty() + command_text(c));
    } else {
        assert(svg_text(all) =~= svg_text(commands) + seq![' '] + command_text(c));
    }
}

fn append_point(out: &mut String, p: &PointText)
    ensures
        final(out)@ == old(out)@ + point_text(*p),
{
    out.append(p.x.as_str());
    out.append(",");
    out.append(p.y.as_str());
    proof {
        reveal_strlit(",");
    }
    assert(final(out)@ =~= old(out)@ + point_text(*p));
}

/// Writes path commands whose points are already written as text in SVG
/// path-data form: `M x,y`, `L x,y`, `C x,y x,y x,y` and `Z`, separated by
/// single spaces.
pub fn svg_path_data(commands: &[PathCommand<PointText>]) -> (data: String)
    ensures
        data@ == svg_text(commands@),
{
    let mut out = String::new();
    let n: usize = commands.len();
    let mut i: usize = 0;
    while i < n
        invariant
            n == commands@.len(),
            i <= n,
            out@ == svg_text(commands@.take(i as int)),
        decreases n - i,
    {
        let ghost before = out@;
        proof {
            reveal_strlit(" ");
            reveal_strlit("M ");
            reveal_strlit("L ");
            reveal_strlit("C ");
            reveal_strlit("Z");
        }
        if i > 0 {
            out.append(" ");
        }
        let ghost sep = out@;
        match &commands[i] {
            PathCommand::MoveTo(p) => {
                out.append("M ");
                append_point(&mut out, p);
            },
            PathCommand::LineTo(p) => {
                out.append("L ");
                append_point(&mut out, p);
            },
            PathCommand::CubicTo { ctrl1, ctrl2, to } => {
                out.append("C ");
                append_point(&mut out, ctrl1);
                out.append(" ");
                append_point(&mut out, ctrl2);
                out.append(" ");
                append_point(&mut out, to);
            },
            PathCommand::Close => {
                out.append("Z");
            },
        }
        assert(out@ =~= sep + command_text(commands@[i as int]));
        assert(commands@.take(i + 1).drop_last() =~= commands@.take(i as int));
        if i == 0 {
            assert(commands@.take(1) =~= seq![commands@[0]]);
            assert(before =~= Seq::<char>::empty());
            assert(out@ =~= svg_text(commands@.take(1)));
        } else {
            assert(sep =~= before + seq![' ']);
        }
        i += 1;
    }
    assert(commands@.take(n as int) =~= commands@);
    out
}

} // verus!
