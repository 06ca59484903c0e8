//! Destination templates: literal text with `%0`..`%9` capture references and
//! `%%` for a literal percent sign.
use vstd::prelude::*;

verus! {

/// One segment of a compiled destination template.
#[derive(Debug, PartialEq, Eq)]
pub enum Segment {
    Literal(String),
    CaptureRef(usize),
}

/// The meaning of a template, one step at a time: a literal character or a
/// reference to a capture group.
pub enum Part {
    Text(Seq<char>),
    Group(usize),
}

/// Why a destination template was rejected. Positions count characters from 0.
#[derive(Debug, Clone, Copy, PartialEq, Eq)]
pub enum TemplateError {
    /// `%` followed by a character that is neither `%` nor a digit.
    UnknownEscape { ch: char, pos: usize },
    /// The template ends in a lone `%`.
    TrailingPercent { pos: usize },
}

/// A compiled destination template.
pub struct Template {
    segments: Vec<Segment>,
}

pub open spec fn is_digit(c: char) -> bool {
    '0' <= c && c <= '9'
}

pub open spec fn digit_value(c: char) -> usize {
    (c as u32 - '0' as u32) as usize
}

pub open spec fn literal_pieces(s: Seq<char>) -> Seq<Part>
    decreases s.len(),
{
    if s.len() == 0 {
        seq![]
    } else {
        literal_pieces(s.drop_last()).push(Part::Text(seq![s.last()]))
    }
}

pub open spec fn segment_pieces(seg: Segment) -> Seq<Part> {
    match seg {
        Segment::Literal(s) => literal_pieces(s@),
        Segment::CaptureRef(n) => seq![Part::Group(n)],
    }
}

pub open spec fn flatten(segs: Seq<Segment>) -> Seq<Part>
    decreases segs.len(),
{
    if segs.len() == 0 {
        seq![]
    } else {
        flatten(segs.drop_last()) + segment_pieces(segs.last())
    }
}

impl View for Template {
    type V = Seq<Part>;

    closed spec fn view(&self) -> Seq<Part> {
        flatten(self.segments@)
    }
}

/// Puts `acc` in front of a successful parse; an error passes through.
pub open spec fn after(acc: Seq<Part>, r: Result<Seq<Part>, TemplateError>) -> Result<
    Seq<Part>,
    TemplateError,
> {
    match r {
        Ok(t) => Ok(acc + t),
        Err(e) => Err(e),
    }
}

/// The pieces of the template `s` from character `i` on, scanning left to right.
pub open spec fn parse_from(s: Seq<char>, i: int) -> Result<Seq<Part>, TemplateError>
    decreases s.len() - i,
{
    if i < 0 || i >= s.len() {
        Ok(seq![])
    } else if s[i] != '%' {
        after(seq![Part::Text(seq![s[i]])], parse_from(s, i + 1))
    } else if i + 1 >= s.len() {
        Err(TemplateError::TrailingPercent { pos: i as usize })
    } else if s[i + 1] == '%' {
        after(seq![Part::Text(seq!['%'])], parse_from(s, i + 2))
    } else if is_digit(s[i + 1]) {
        after(seq![Part::Group(digit_value(s[i + 1]))], parse_from(s, i + 2))
    } else {
        Err(TemplateError::UnknownEscape { ch: s[i + 1], pos: (i + 1) as usize })
    }
}

/// The meaning of the template text `s`, or why it is rejected.
pub open spec fn parse_template(s: Seq<char>) -> Result<Seq<Part>, TemplateError> {
    parse_from(s, 0)
}

proof fn lemma_after_after(a: Seq<Part>, b: Seq<Part>, r: Result<Seq<Part>, TemplateError>)
    ensures
        after(a, after(b, r)) == after(a + b, r),
{
    if let Ok(t) = r {
        assert(a + (b + t) =~= (a + b) + t);
    }
}

proof fn lemma_literal_push(s: Seq<char>, c: char)
    ensures
        literal_pieces(s.push(c)) == literal_pieces(s).push(Part::Text(seq![c])),
{
    assert(s.push(c).drop_last() =~= s);
}

proof fn lemma_flatten_push(segs: Seq<Segment>, seg: Segment)
    ensures
        flatten(segs.push(seg)) == flatten(segs) + segment_pieces(seg),
{
    assert(segs.push(seg).drop_last() =~= segs);
}

/// Compiles the template text `s` in one left-to-right scan.
///
/// `%%` stands for a literal `%`, `%d` for capture group `d`; any other
/// character after `%`, or a `%` at the very end, rejects the template.
pub fn parse_destination(s: &str) -> (r: Result<Template, TemplateError>)
    ensures
        r matches Ok(t) ==> parse_template(s@) == Ok::<Seq<Part>, TemplateError>(t@),
        r matches Err(e) ==> parse_template(s@) == Err::<Seq<Part>, TemplateError>(e),
{
    let n = s.unicode_len();
    let mut segments: Vec<Segment> = Vec::new();
    let mut current = String::new();
    let mut i: usize = 0;
    proof {
        assert(literal_pieces(current@) =~= Seq::<Part>::empty());
        if let Ok(t) = parse_from(s@, 0) {
            assert(Seq::<Part>::empty() + Seq::<Part>::empty() + t =~= t);
        }
    }
    while i < n
        invariant
            n == s@.len(),
            i <= n,
            parse_from(s@, 0) == after(
                flatten(segments@) + literal_pieces(current@),
                parse_from(s@, i as int),
            ),
        decreases n - i,
    {
        let ghost acc = flatten(segments@) + literal_pieces(current@);
        let c = s.get_char(i);
        if c != '%' {
            proof {
                lemma_after_after(acc, seq![Part::Text(seq![c])], parse_from(s@, i + 1));
                lemma_literal_push(current@, c);
                assert(acc + seq![Part::Text(seq![c])] =~= flatten(segments@) + literal_pieces(
                    current@,
                ).push(Part::Text(seq![c])));
            }
            push_char(&mut current, c);
            i = i + 1;
        } else if i + 1 >= n {
            return Err(TemplateError::TrailingPercent { pos: i });
        } else {
            let d = s.get_char(i + 1);
            if d == '%' {
                proof {
                    lemma_after_after(acc, seq![Part::Text(seq!['%'])], parse_from(s@, i + 2));
                    lemma_literal_push(current@, '%');
                    assert(acc + seq![Part::Text(seq!['%'])] =~= flatten(segments@) + literal_pieces(
                        current@,
                    ).push(Part::Text(seq!['%'])));
                }
                push_char(&mut current, '%');
            } else if '0' <= d && d <= '9' {
                let v = (d as u32 - '0' as u32) as usize;
                proof {
                    lemma_after_after(acc, seq![Part::Group(v)], parse_from(s@, i + 2));
                    lemma_flatten_push(segments@, Segment::Literal(current));
                    lemma_flatten_push(
                        segments@.push(Segment::Literal(current)),
                        Segment::CaptureRef(v),
                    );
                    assert(literal_pieces(Seq::<char>::empty()) =~= Seq::<Part>::empty());
                    assert(acc + seq![Part::Group(v)] =~= flatten(segments@) + literal_pieces(
                        current@,
                    ) + seq![Part::Group(v)] + literal_pieces(Seq::<char>::empty()));
                }
                segments.push(Segment::Literal(current));
                segments.push(Segment::CaptureRef(v));
                current = String::new();
            } else {
                return Err(TemplateError::UnknownEscape { ch: d, pos: i + 1 });
            }
            i = i + 2;
        }
    }
    proof {
        lemma_flatten_push(segments@, Segment::Literal(current));
        assert(flatten(segments@) + literal_pieces(current@) + Seq::<Part>::empty() =~= flatten(
            segments@,
        ) + literal_pieces(current@));
    }
    segments.push(Segment::Literal(current));
    Ok(Template { segments })
}

/// What capture group `n` holds, seen as text.
pub open spec fn opt_text(o: Option<String>) -> Option<Seq<char>> {
    match o {
        Some(s) => Some(s@),
        None => None,
    }
}

/// The captures of one match, seen as text: entry `n` is group `n`, `None`
/// where the group did not take part in the match.
pub open spec fn captures_view(v: Seq<Option<String>>) -> Seq<Option<Seq<char>>>
    decreases v.len(),
{
    if v.len() == 0 {
        seq![]
    } else {
        captures_view(v.drop_last()).push(opt_text(v.last()))
    }
}

pub proof fn lemma_captures_view_index(v: Seq<Option<String>>, k: int)
    requires
        0 <= k < v.len(),
    ensures
        captures_view(v).len() == v.len(),
        captures_view(v)[k] == opt_text(v[k]),
    decreases v.len(),
{
    lemma_captures_view_len(v);
    if k < v.len() - 1 {
        lemma_captures_view_index(v.drop_last(), k);
    }
}

proof fn lemma_captures_view_len(v: Seq<Option<String>>)
    ensures
        captures_view(v).len() == v.len(),
    decreases v.len(),
{
    if v.len() > 0 {
        lemma_captures_view_len(v.drop_last());
    }
}

/// The text of one piece; `Err(n)` where it names group `n` and that group is
/// absent from `caps`.
pub open spec fn piece_text(p: Part, caps: Seq<Option<Seq<char>>>) -> Result<Seq<char>, usize> {
    match p {
        Part::Text(x) => Ok(x),
        Part::Group(n) => if n < caps.len() && caps[n as int] is Some {
            Ok(caps[n as int]->0)
        } else {
            Err(n)
        },
    }
}

/// Concatenation of two renderings; the first error, from the left, wins.
pub open spec fn join(a: Result<Seq<char>, usize>, b: Result<Seq<char>, usize>) -> Result<
    Seq<char>,
    usize,
> {
    match a {
        Err(n) => Err(n),
        Ok(x) => match b {
            Err(n) => Err(n),
            Ok(y) => Ok(x + y),
        },
    }
}

/// The destination text of the pieces `t` for the captures `caps`: literal
/// characters as they are and each group's text in its place, in order; or the
/// first group that `caps` lacks.
pub open spec fn render_pieces(t: Seq<Part>, caps: Seq<Option<Seq<char>>>) -> Result<
    Seq<char>,
    usize,
>
    decreases t.len(),
{
    if t.len() == 0 {
        Ok(seq![])
    } else {
        join(render_pieces(t.drop_last(), caps), piece_text(t.last(), caps))
    }
}

proof fn lemma_join_assoc(
    a: Result<Seq<char>, usize>,
    b: Result<Seq<char>, usize>,
    c: Result<Seq<char>, usize>,
)
    ensures
        join(join(a, b), c) == join(a, join(b, c)),
{
    if let (Ok(x), Ok(y), Ok(z)) = (a, b, c) {
        assert((x + y) + z =~= x + (y + z));
    }
}

proof fn lemma_join_empty(a: Result<Seq<char>, usize>)
    ensures
        join(Ok(Seq::<char>::empty()), a) == a,
{
    if let Ok(x) = a {
        assert(Seq::<char>::empty() + x =~= x);
    }
}

/// Rendering splits over concatenated pieces.
pub proof fn lemma_render_concat(a: Seq<Part>, b: Seq<Part>, caps: Seq<Option<Seq<char>>>)
    ensures
        render_pieces(a + b, caps) == join(render_pieces(a, caps), render_pieces(b, caps)),
    decreases b.len(),
{
    if b.len() == 0 {
        assert(a + b =~= a);
        if let Ok(x) = render_pieces(a, caps) {
            assert(x + Seq::<char>::empty() =~= x);
        }
    } else {
        assert((a + b).drop_last() =~= a + b.drop_last());
        lemma_render_concat(a, b.drop_last(), caps);
        lemma_join_assoc(
            render_pieces(a, caps),
            render_pieces(b.drop_last(), caps),
            piece_text(b.last(), caps),
        );
    }
}

proof fn lemma_flatten_concat(a: Seq<Segment>, b: Seq<Segment>)
    ensures
        flatten(a + b) == flatten(a) + flatten(b),
    decreases b.len(),
{
    if b.len() == 0 {
        assert(a + b =~= a);
        assert(flatten(a) + Seq::<Part>::empty() =~= flatten(a));
    } else {
        assert((a + b).drop_last() =~= a + b.drop_last());
        lemma_flatten_concat(a, b.drop_last());
        assert(flatten(a) + flatten(b.drop_last()) + segment_pieces(b.last()) =~= flatten(a) + (
        flatten(b.drop_last()) + segment_pieces(b.last())));
    }
}

/// Literal text renders to itself, whatever the captures.
pub proof fn lemma_render_literal(s: Seq<char>, caps: Seq<Option<Seq<char>>>)
    ensures
        render_pieces(literal_pieces(s), caps) == Ok::<Seq<char>, usize>(s),
    decreases s.len(),
{
    if s.len() > 0 {
        lemma_render_literal(s.drop_last(), caps);
        assert(literal_pieces(s).drop_last() =~= literal_pieces(s.drop_last()));
        assert(literal_pieces(s).last() == Part::Text(seq![s.last()]));
        assert(piece_text(literal_pieces(s).last(), caps) == Ok::<Seq<char>, usize>(seq![s.last()]));
        assert(render_pieces(literal_pieces(s), caps) == join(
            render_pieces(literal_pieces(s.drop_last()), caps),
            piece_text(literal_pieces(s).last(), caps),
        ));
        assert(s.drop_last() + seq![s.last()] =~= s);
    } else {
        assert(s =~= Seq::<char>::empty());
    }
}

/// Whether every group that the pieces `t` name is present in `caps`.
pub open spec fn groups_present(t: Seq<Part>, caps: Seq<Option<Seq<char>>>) -> bool {
    forall|i: int|
        0 <= i < t.len() ==> (#[trigger] t[i] matches Part::Group(n) ==> n < caps.len()
            && caps[n as int] is Some)
}

/// Where every group that a template names is present, rendering succeeds:
/// its text is each literal and each group's text, in template order.
pub proof fn lemma_render_total(t: Seq<Part>, caps: Seq<Option<Seq<char>>>)
    requires
        groups_present(t, caps),
    ensures
        render_pieces(t, caps) is Ok,
    decreases t.len(),
{
    if t.len() > 0 {
        assert(groups_present(t.drop_last(), caps)) by {
            assert forall|i: int| 0 <= i < t.drop_last().len() implies (#[trigger] t.drop_last()[i] matches Part::Group(n) ==> n < caps.len()
                && caps[n as int] is Some) by {
                assert(t.drop_last()[i] == t[i]);
            }
        }
        lemma_render_total(t.drop_last(), caps);
        assert(t.last() == t[t.len() - 1]);
    }
}

proof fn lemma_literal_concat(a: Seq<char>, b: Seq<char>)
    ensures
        literal_pieces(a + b) == literal_pieces(a) + literal_pieces(b),
    decreases b.len(),
{
    if b.len() == 0 {
        assert(a + b =~= a);
        assert(literal_pieces(a) + literal_pieces(b) =~= literal_pieces(a));
    } else {
        assert((a + b).drop_last() =~= a + b.drop_last());
        lemma_literal_concat(a, b.drop_last());
        assert(literal_pieces(a) + literal_pieces(b.drop_last()).push(Part::Text(seq![b.last()]))
            =~= (literal_pieces(a) + literal_pieces(b.drop_last())).push(
            Part::Text(seq![b.last()]),
        ));
    }
}

proof fn lemma_parse_plain(s: Seq<char>, i: int)
    requires
        0 <= i <= s.len(),
        forall|k: int| 0 <= k < s.len() ==> s[k] != '%',
    ensures
        parse_from(s, i) == Ok::<Seq<Part>, TemplateError>(literal_pieces(s.subrange(i, s.len() as int))),
    decreases s.len() - i,
{
    if i == s.len() {
        assert(s.subrange(i, s.len() as int) =~= Seq::<char>::empty());
    } else {
        lemma_parse_plain(s, i + 1);
        let rest = s.subrange(i + 1, s.len() as int);
        assert(s.subrange(i, s.len() as int) =~= seq![s[i]] + rest);
        lemma_literal_concat(seq![s[i]], rest);
        assert(seq![s[i]].drop_last() =~= Seq::<char>::empty());
        reveal_with_fuel(literal_pieces, 2);
        assert(literal_pieces(seq![s[i]]) =~= seq![Part::Text(seq![s[i]])]);
    }
}

/// A template with no `%` in it compiles to its own characters, and renders
/// back to exactly its text whatever the captures.
pub proof fn lemma_plain_template_round_trip(s: Seq<char>, caps: Seq<Option<Seq<char>>>)
    requires
        forall|k: int| 0 <= k < s.len() ==> s[k] != '%',
    ensures
        parse_template(s) == Ok::<Seq<Part>, TemplateError>(literal_pieces(s)),
        render_pieces(literal_pieces(s), caps) == Ok::<Seq<char>, usize>(s),
{
    lemma_parse_plain(s, 0);
    assert(s.subrange(0, s.len() as int) =~= s);
    lemma_render_literal(s, caps);
}

proof fn lemma_parse_shift(a: Seq<char>, b: Seq<char>, j: int)
    requires
        0 <= j <= b.len(),
        parse_from(b, j) is Ok,
    ensures
        parse_from(a + b, a.len() + j) == parse_from(b, j),
    decreases b.len() - j,
{
    let s = a + b;
    let i = a.len() + j;
    if j < b.len() {
        assert(s[i] == b[j]);
        if b[j] != '%' {
            lemma_parse_shift(a, b, j + 1);
        } else {
            assert(s[i + 1] == b[j + 1]);
            if b[j + 1] == '%' || is_digit(b[j + 1]) {
                lemma_parse_shift(a, b, j + 2);
            }
        }
    }
}

proof fn lemma_parse_prefix(a: Seq<char>, b: Seq<char>, i: int)
    requires
        0 <= i <= a.len(),
        parse_from(a, i) is Ok,
        parse_from(b, 0) is Ok,
    ensures
        parse_from(a + b, i) == after(parse_from(a, i)->Ok_0, parse_from(b, 0)),
    decreases a.len() - i,
{
    let s = a + b;
    if i == a.len() {
        lemma_parse_shift(a, b, 0);
        assert(Seq::<Part>::empty() + parse_from(b, 0)->Ok_0 =~= parse_from(b, 0)->Ok_0);
    } else {
        assert(s[i] == a[i]);
        if a[i] != '%' {
            lemma_parse_prefix(a, b, i + 1);
            lemma_after_after(seq![Part::Text(seq![a[i]])], parse_from(a, i + 1)->Ok_0, parse_from(b, 0));
        } else {
            assert(s[i + 1] == a[i + 1]);
            lemma_parse_prefix(a, b, i + 2);
            lemma_after_after(seq![Part::Text(seq!['%'])], parse_from(a, i + 2)->Ok_0, parse_from(b, 0));
            lemma_after_after(
                seq![Part::Group(digit_value(a[i + 1]))],
                parse_from(a, i + 2)->Ok_0,
                parse_from(b, 0),
            );
        }
    }
}

/// `%%` stands for one literal `%` wherever it is put between two valid
/// templates: the whole compiles to the first template's parts, a `%`, and the
/// second's, and renders to the first's text, `%`, and the second's.
pub proof fn lemma_double_percent(a: Seq<char>, b: Seq<char>, caps: Seq<Option<Seq<char>>>)
    requires
        parse_template(a) is Ok,
        parse_template(b) is Ok,
    ensures
        parse_template(a + seq!['%', '%'] + b) == Ok::<Seq<Part>, TemplateError>(
            parse_template(a)->Ok_0 + seq![Part::Text(seq!['%'])] + parse_template(b)->Ok_0,
        ),
        render_pieces(
            parse_template(a)->Ok_0 + seq![Part::Text(seq!['%'])] + parse_template(b)->Ok_0,
            caps,
        ) == join(
            join(render_pieces(parse_template(a)->Ok_0, caps), Ok(seq!['%'])),
            render_pieces(parse_template(b)->Ok_0, caps),
        ),
{
    let pa = parse_template(a)->Ok_0;
    let pb = parse_template(b)->Ok_0;
    let pct = seq![Part::Text(seq!['%'])];
    let m = seq!['%', '%'] + b;
    lemma_parse_shift(seq!['%', '%'], b, 0);
    assert(m[0] == '%' && m[1] == '%');
    assert(parse_from(m, 0) == after(pct, parse_from(m, 2)));
    lemma_parse_prefix(a, m, 0);
    assert(a + seq!['%', '%'] + b =~= a + m);
    assert(pa + (pct + pb) =~= pa + pct + pb);
    lemma_render_concat(pa + pct, pb, caps);
    lemma_render_concat(pa, pct, caps);
    assert(render_pieces(pct, caps) == Ok::<Seq<char>, usize>(seq!['%'])) by {
        reveal_with_fuel(render_pieces, 2);
        assert(pct.drop_last() =~= Seq::<Part>::empty());
        lemma_join_empty(Ok(seq!['%']));
    }
}

impl Template {
    /// Builds the destination text for one match: literal segments as they
    /// are, each capture reference replaced by that group's text.
    /// `Err(n)` names the first referenced group `n` that `caps` does not hold.
    pub fn render(&self, caps: &Vec<Option<String>>) -> (r: Result<String, usize>)
        ensures
            r matches Ok(s) ==> render_pieces(self@, captures_view(caps@)) == Ok::<
                Seq<char>,
                usize,
            >(s@),
            r matches Err(n) ==> render_pieces(self@, captures_view(caps@)) == Err::<
                Seq<char>,
                usize,
            >(n),
    {
        let ghost cv = captures_view(caps@);
        let ghost segs = self.segments@;
        let mut out = String::new();
        let mut j: usize = 0;
        proof {
            assert(segs.take(0) =~= Seq::<Segment>::empty());
            lemma_captures_view_len(caps@);
        }
        while j < self.segments.len()
            invariant
                segs == self.segments@,
                cv == captures_view(caps@),
                cv.len() == caps@.len(),
                j <= segs.len(),
                render_pieces(flatten(segs.take(j as int)), cv) == Ok::<Seq<char>, usize>(out@),
            decreases segs.len() - j,
        {
            proof {
                assert(segs.take(j + 1).drop_last() =~= segs.take(j as int));
                lemma_render_concat(flatten(segs.take(j as int)), segment_pieces(segs[j as int]), cv);
            }
            match &self.segments[j] {
                Segment::Literal(l) => {
                    proof {
                        lemma_render_literal(l@, cv);
                    }
                    out.append(l.as_str());
                },
                Segment::CaptureRef(n) => {
                    let n = *n;
                    assert(render_pieces(seq![Part::Group(n)], cv) == piece_text(Part::Group(n), cv)) by {
                        reveal_with_fuel(render_pieces, 2);
                        assert(seq![Part::Group(n)].drop_last() =~= Seq::<Part>::empty());
                        lemma_join_empty(piece_text(Part::Group(n), cv));
                    }
                    let present = n < caps.len() && caps[n].is_some();
                    if n < caps.len() {
                        proof {
                            lemma_captures_view_index(caps@, n as int);
                        }
                    }
                    if !present {
                        proof {
                            assert(segs =~= segs.take(j + 1) + segs.skip(j + 1));
                            lemma_flatten_concat(segs.take(j + 1), segs.skip(j + 1));
                            lemma_render_concat(flatten(segs.take(j + 1)), flatten(segs.skip(j + 1)), cv);
                        }
                        return Err(n);
                    }
                    match &caps[n] {
                        Some(text) => out.append(text.as_str()),
                        None => {},
                    }
                },
            }
            j = j + 1;
        }
        proof {
            assert(segs.take(j as int) =~= segs);
        }
        Ok(out)
    }
}

/// Relies on `String::push`: the character is appended at the end.
#[verifier::external_body]
fn push_char(s: &mut String, c: char)
    ensures
        final(s)@ == old(s)@.push(c),
{
    s.push(c);
}

} // verus!
