//! The content codec: the textual form of a card as it appears in the
//! scratch document, and how structured fields are recovered from it.
//!
//! A rendered card is the name, a delimiter line made entirely of `=`
//! characters, and the description, separated by newlines.  Parsing splits
//! the document into lines, finds the first delimiter line after the first
//! line, and rejoins what stands before it (the name) and after it (the
//! description).

use vstd::prelude::*;

verus! {

/// Line separator in a rendered document.
pub const NEWLINE: u8 = 10;

/// The byte a delimiter line is made of (`=`).
pub const DELIMITER: u8 = 61;

/// A line that separates the name from the description: one or more `=`
/// bytes and nothing else.
pub open spec fn is_delimiter_line(l: Seq<u8>) -> bool {
    l.len() > 0 && forall|i: int| 0 <= i < l.len() ==> l[i] == DELIMITER
}

/// The lines of a document, split on `NEWLINE`.  A document always has at
/// least one (possibly empty) line.
pub open spec fn split_lines(s: Seq<u8>) -> Seq<Seq<u8>>
    decreases s.len(),
{
    if s.len() == 0 {
        seq![Seq::<u8>::empty()]
    } else if s[0] == NEWLINE {
        seq![Seq::<u8>::empty()] + split_lines(s.drop_first())
    } else {
        let rest = split_lines(s.drop_first());
        seq![seq![s[0]] + rest[0]] + rest.drop_first()
    }
}

/// The inverse of `split_lines`: lines joined with `NEWLINE` between them.
pub open spec fn join_lines(ls: Seq<Seq<u8>>) -> Seq<u8>
    decreases ls.len(),
{
    if ls.len() == 0 {
        Seq::<u8>::empty()
    } else if ls.len() == 1 {
        ls[0]
    } else {
        ls[0] + seq![NEWLINE] + join_lines(ls.drop_first())
    }
}

pub proof fn lemma_split_lines_nonempty(s: Seq<u8>)
    ensures
        split_lines(s).len() >= 1,
    decreases s.len(),
{
    if s.len() == 0 {
    } else {
        lemma_split_lines_nonempty(s.drop_first());
    }
}

/// A document without a newline is a single line.
pub proof fn lemma_split_lines_no_newline(s: Seq<u8>)
    requires
        forall|i: int| 0 <= i < s.len() ==> s[i] != NEWLINE,
    ensures
        split_lines(s) =~= seq![s],
    decreases s.len(),
{
    if s.len() == 0 {
        assert(s =~= Seq::<u8>::empty());
    } else {
        assert(s[0] != NEWLINE);
        lemma_split_lines_no_newline(s.drop_first());
        assert(seq![s[0]] + s.drop_first() =~= s);
    }
}

/// Splitting distributes over a newline between two documents.
pub proof fn lemma_split_lines_append(a: Seq<u8>, b: Seq<u8>)
    ensures
        split_lines(a + seq![NEWLINE] + b) =~= split_lines(a) + split_lines(b),
    decreases a.len(),
{
    let s = a + seq![NEWLINE] + b;
    if a.len() == 0 {
        assert(s[0] == NEWLINE);
        assert(s.drop_first() =~= b);
        assert(split_lines(s) =~= seq![Seq::<u8>::empty()] + split_lines(b));
        assert(split_lines(a) =~= seq![Seq::<u8>::empty()]);
    } else if a[0] == NEWLINE {
        assert(s[0] == NEWLINE);
        assert(s.drop_first() =~= a.drop_first() + seq![NEWLINE] + b);
        lemma_split_lines_append(a.drop_first(), b);
    } else {
        assert(s[0] == a[0]);
        assert(s.drop_first() =~= a.drop_first() + seq![NEWLINE] + b);
        lemma_split_lines_append(a.drop_first(), b);
        let ra = split_lines(a.drop_first());
        let rs = split_lines(s.drop_first());
        lemma_split_lines_nonempty(a.drop_first());
        assert(rs =~= ra + split_lines(b));
        assert(rs[0] == ra[0]);
        assert(rs.drop_first() =~= ra.drop_first() + split_lines(b));
    }
}

/// Joining the lines of a document gives the document back.
pub proof fn lemma_join_split(s: Seq<u8>)
    ensures
        join_lines(split_lines(s)) =~= s,
    decreases s.len(),
{
    if s.len() == 0 {
    } else if s[0] == NEWLINE {
        lemma_join_split(s.drop_first());
        lemma_split_lines_nonempty(s.drop_first());
        let ls = split_lines(s);
        assert(ls.len() >= 2);
        assert(ls.drop_first() =~= split_lines(s.drop_first()));
        assert(join_lines(ls) =~= seq![NEWLINE] + join_lines(split_lines(s.drop_first())));
    } else {
        lemma_join_split(s.drop_first());
        lemma_split_lines_nonempty(s.drop_first());
        let r = split_lines(s.drop_first());
        let ls = split_lines(s);
        if r.len() == 1 {
            assert(ls =~= seq![seq![s[0]] + r[0]]);
            assert(join_lines(r) == r[0]);
            assert(join_lines(ls) =~= seq![s[0]] + r[0]);
            assert(join_lines(ls) =~= seq![s[0]] + s.drop_first());
            assert(seq![s[0]] + s.drop_first() =~= s);
        } else {
            assert(ls.len() >= 2);
            assert(ls[0] == seq![s[0]] + r[0]);
            assert(ls.drop_first() =~= r.drop_first());
            assert(join_lines(ls) =~= (seq![s[0]] + r[0]) + seq![NEWLINE] + join_lines(r.drop_first()));
            assert(join_lines(r) =~= r[0] + seq![NEWLINE] + join_lines(r.drop_first()));
            assert(r[0] + seq![NEWLINE] + join_lines(r.drop_first()) =~= s.drop_first());
            assert(join_lines(ls) =~= seq![s[0]] + s.drop_first());
            assert(seq![s[0]] + s.drop_first() =~= s);
        }
    }
}

/// Joining after appending one more line.
pub proof fn lemma_join_lines_push(ls: Seq<Seq<u8>>, x: Seq<u8>)
    ensures
        join_lines(ls.push(x)) =~= if ls.len() == 0 {
            x
        } else {
            join_lines(ls) + seq![NEWLINE] + x
        },
    decreases ls.len(),
{
    if ls.len() == 0 {
        assert(ls.push(x) =~= seq![x]);
    } else {
        lemma_join_lines_push(ls.drop_first(), x);
        assert(ls.push(x).drop_first() =~= ls.drop_first().push(x));
        assert(ls.push(x)[0] == ls[0]);
        if ls.len() == 1 {
            assert(ls.drop_first().len() == 0);
            assert(join_lines(ls.push(x)) =~= ls[0] + seq![NEWLINE] + x);
            assert(join_lines(ls) == ls[0]);
        } else {
            assert(join_lines(ls.push(x)) =~= ls[0] + seq![NEWLINE] + join_lines(ls.drop_first().push(x)));
            assert(join_lines(ls.drop_first().push(x)) =~= join_lines(ls.drop_first()) + seq![NEWLINE] + x);
            assert(join_lines(ls) =~= ls[0] + seq![NEWLINE] + join_lines(ls.drop_first()));
        }
    }
}

/// The first delimiter line at or after position `from`, if any.
pub open spec fn delimiter_search(ls: Seq<Seq<u8>>, from: int) -> Option<int>
    decreases ls.len() - from,
{
    if from < 0 || from >= ls.len() {
        None
    } else if is_delimiter_line(ls[from]) {
        Some(from)
    } else {
        delimiter_search(ls, from + 1)
    }
}

pub proof fn lemma_delimiter_search_found(ls: Seq<Seq<u8>>, from: int, j: int)
    requires
        0 <= from <= j < ls.len(),
        forall|i: int| from <= i < j ==> !is_delimiter_line(ls[i]),
        is_delimiter_line(ls[j]),
    ensures
        delimiter_search(ls, from) == Some(j),
    decreases j - from,
{
    if from < j {
        lemma_delimiter_search_found(ls, from + 1, j);
    }
}

/// The parsed fields of a document: everything before the first delimiter
/// line (after the first line) is the name, everything after it the
/// description.
pub struct ContentsView {
    pub name: Seq<u8>,
    pub desc: Seq<u8>,
}

pub open spec fn parse_spec(text: Seq<u8>) -> Option<ContentsView> {
    let ls = split_lines(text);
    match delimiter_search(ls, 1) {
        None => None,
        Some(j) => Some(
            ContentsView {
                name: join_lines(ls.subrange(0, j)),
                desc: join_lines(ls.subrange(j + 1, ls.len() as int)),
            },
        ),
    }
}

/// The delimiter line under a name: as wide as the name, but never empty.
pub open spec fn delimiter_of(name: Seq<u8>) -> Seq<u8> {
    if name.len() == 0 {
        seq![DELIMITER]
    } else {
        Seq::<u8>::new(name.len(), |i: int| DELIMITER)
    }
}

/// The rendered form of a card's editable fields.
pub open spec fn render_spec(name: Seq<u8>, desc: Seq<u8>) -> Seq<u8> {
    name + seq![NEWLINE] + delimiter_of(name) + seq![NEWLINE] + desc
}

/// A name survives a render/parse round trip unless one of its own lines
/// (after the first) would be mistaken for the delimiter.
pub open spec fn renderable_name(name: Seq<u8>) -> bool {
    forall|i: int|
        1 <= i < split_lines(name).len() ==> !is_delimiter_line(#[trigger] split_lines(name)[i])
}

/// Bytes that editors commonly append at the end of a saved file.
pub open spec fn is_trailing_whitespace(b: u8) -> bool {
    b == 32 || b == 9 || b == 10 || b == 13
}

/// The document with trailing whitespace removed, as the poll loop reads it.
pub open spec fn trim_end_spec(s: Seq<u8>) -> Seq<u8>
    decreases s.len(),
{
    if s.len() == 0 {
        s
    } else if is_trailing_whitespace(s.last()) {
        trim_end_spec(s.drop_last())
    } else {
        s
    }
}

pub proof fn lemma_trim_end_no_trailing_ws(s: Seq<u8>)
    requires
        s.len() == 0 || !is_trailing_whitespace(s.last()),
    ensures
        trim_end_spec(s) == s,
{
}

/// Trimming only ever touches the right-hand part of a concatenation.
pub proof fn lemma_trim_end_append(x: Seq<u8>, y: Seq<u8>)
    ensures
        trim_end_spec(x + y) =~= if trim_end_spec(y).len() > 0 {
            x + trim_end_spec(y)
        } else {
            trim_end_spec(x)
        },
    decreases y.len(),
{
    if y.len() == 0 {
        assert(x + y =~= x);
    } else {
        let s = x + y;
        assert(s.last() == y.last());
        if is_trailing_whitespace(y.last()) {
            assert(s.drop_last() =~= x + y.drop_last());
            lemma_trim_end_append(x, y.drop_last());
        } else {
            assert(trim_end_spec(y) == y);
        }
    }
}

/// The round-trip law: a rendered card parses back to exactly the name and
/// description it was rendered from, even after an editor appends trailing
/// whitespace to the document, which comes back trimmed from the
/// description.
pub proof fn lemma_render_parse_round_trip(name: Seq<u8>, desc: Seq<u8>)
    requires
        renderable_name(name),
    ensures
        parse_spec(render_spec(name, desc)) == Some(ContentsView { name, desc }),
{
    let delim = delimiter_of(name);
    let text = render_spec(name, desc);
    assert(forall|i: int| 0 <= i < delim.len() ==> delim[i] != NEWLINE);
    lemma_split_lines_no_newline(delim);
    lemma_split_lines_append(delim, desc);
    assert(text =~= name + seq![NEWLINE] + (delim + seq![NEWLINE] + desc));
    lemma_split_lines_append(name, delim + seq![NEWLINE] + desc);
    let lname = split_lines(name);
    let ldesc = split_lines(desc);
    let ls = split_lines(text);
    assert(ls =~= lname + seq![delim] + ldesc);
    lemma_split_lines_nonempty(name);
    lemma_split_lines_nonempty(desc);
    let j = lname.len() as int;
    assert(is_delimiter_line(ls[j]));
    assert(forall|i: int| 1 <= i < j ==> ls[i] == lname[i] && !is_delimiter_line(#[trigger] ls[i]));
    lemma_delimiter_search_found(ls, 1, j);
    assert(ls.subrange(0, j) =~= lname);
    assert(ls.subrange(j + 1, ls.len() as int) =~= ldesc);
    lemma_join_split(name);
    lemma_join_split(desc);
}

/// The round-trip law as the poll loop sees it: the loop trims trailing
/// whitespace before parsing, so a rendered card followed by whatever
/// trailing whitespace an editor appended parses back to the original name
/// and the original description trimmed of trailing whitespace.
pub proof fn lemma_render_trim_parse_round_trip(name: Seq<u8>, desc: Seq<u8>)
    requires
        renderable_name(name),
    ensures
        parse_spec(trim_end_spec(render_spec(name, desc))) == Some(
            ContentsView { name, desc: trim_end_spec(desc) },
        ),
{
    let delim = delimiter_of(name);
    let head = name + seq![NEWLINE] + delim;
    let text = render_spec(name, desc);
    assert(text =~= head + (seq![NEWLINE] + desc));
    lemma_trim_end_append(head, seq![NEWLINE] + desc);
    lemma_trim_end_append(seq![NEWLINE], desc);
    if trim_end_spec(desc).len() > 0 {
        assert(trim_end_spec(seq![NEWLINE] + desc) =~= seq![NEWLINE] + trim_end_spec(desc));
        assert(trim_end_spec(text) =~= head + (seq![NEWLINE] + trim_end_spec(desc)));
        assert(trim_end_spec(text) =~= render_spec(name, trim_end_spec(desc)));
        lemma_render_parse_round_trip(name, trim_end_spec(desc));
    } else {
        assert(seq![NEWLINE].drop_last() =~= Seq::<u8>::empty());
        assert(trim_end_spec(Seq::<u8>::empty()) =~= Seq::<u8>::empty());
        assert(trim_end_spec(seq![NEWLINE]) =~= Seq::<u8>::empty());
        assert(trim_end_spec(seq![NEWLINE] + desc).len() == 0);
        assert(trim_end_spec(desc) =~= Seq::<u8>::empty());
        assert(trim_end_spec(text) =~= trim_end_spec(head));
        assert(head.last() == DELIMITER);
        lemma_trim_end_no_trailing_ws(head);
        assert(forall|i: int| 0 <= i < delim.len() ==> delim[i] != NEWLINE);
        lemma_split_lines_no_newline(delim);
        lemma_split_lines_append(name, delim);
        let lname = split_lines(name);
        let ls = split_lines(head);
        assert(ls =~= lname + seq![delim]);
        lemma_split_lines_nonempty(name);
        let j = lname.len() as int;
        assert(is_delimiter_line(ls[j]));
        assert(forall|i: int|
            1 <= i < j ==> ls[i] == lname[i] && !is_delimiter_line(#[trigger] ls[i]));
        lemma_delimiter_search_found(ls, 1, j);
        assert(ls.subrange(0, j) =~= lname);
        lemma_join_split(name);
        assert(ls.subrange(j + 1, ls.len() as int) =~= Seq::<Seq<u8>>::empty());
        assert(join_lines(Seq::<Seq<u8>>::empty()) =~= Seq::<u8>::empty());
    }
}

/// The structured fields recovered from a scratch document.
pub struct CardContents {
    pub name: Vec<u8>,
    pub desc: Vec<u8>,
}

impl View for CardContents {
    type V = ContentsView;

    open spec fn view(&self) -> ContentsView {
        ContentsView { name: self.name@, desc: self.desc@ }
    }
}

/// Why a scratch document could not be parsed.
#[derive(Clone, Copy, PartialEq, Eq, Structural, Debug)]
pub enum ParseError {
    MissingDelimiter,
}

pub open spec fn views_of(ls: Seq<Vec<u8>>) -> Seq<Seq<u8>> {
    ls.map_values(|l: Vec<u8>| l@)
}

fn is_delimiter_line_exec(l: &Vec<u8>) -> (r: bool)
    ensures
        r == is_delimiter_line(l@),
{
    if l.len() == 0 {
        return false;
    }
    let n: usize = l.len();
    let mut i: usize = 0;
    while i < n
        invariant
            n == l@.len(),
            i <= n,
            forall|k: int| 0 <= k < i ==> l@[k] == DELIMITER,
        decreases n - i,
    {
        if l[i] != DELIMITER {
            return false;
        }
        i += 1;
    }
    true
}

fn split_lines_exec(text: &Vec<u8>) -> (lines: Vec<Vec<u8>>)
    ensures
        views_of(lines@) == split_lines(text@),
{
    let n: usize = text.len();
    let mut lines: Vec<Vec<u8>> = Vec::new();
    let mut cur: Vec<u8> = Vec::new();
    let mut i: usize = 0;
    proof {
        assert(cur@ + text@.subrange(0, n as int) =~= text@);
        assert(views_of(lines@) =~= Seq::<Seq<u8>>::empty());
        assert(views_of(lines@) + split_lines(cur@ + text@.subrange(0, n as int)) =~= split_lines(
            text@,
        ));
    }
    while i < n
        invariant
            n == text@.len(),
            i <= n,
            forall|k: int| 0 <= k < cur@.len() ==> cur@[k] != NEWLINE,
            split_lines(text@) =~= views_of(lines@) + split_lines(
                cur@ + text@.subrange(i as int, n as int),
            ),
        decreases n - i,
    {
        let b = text[i];
        let ghost done = lines@;
        let ghost prev = cur@;
        proof {
            assert(text@.subrange(i as int, n as int) =~= seq![text@[i as int]] + text@.subrange(
                i + 1,
                n as int,
            ));
        }
        if b == NEWLINE {
            proof {
                assert(prev + text@.subrange(i as int, n as int) =~= prev + seq![NEWLINE]
                    + text@.subrange(i + 1, n as int));
                lemma_split_lines_append(prev, text@.subrange(i + 1, n as int));
                lemma_split_lines_no_newline(prev);
            }
            lines.push(cur);
            cur = Vec::new();
            proof {
                assert(views_of(lines@) =~= views_of(done) + seq![prev]);
                assert(cur@ + text@.subrange(i + 1, n as int) =~= text@.subrange(i + 1, n as int));
                assert(views_of(lines@) + split_lines(cur@ + text@.subrange(i + 1, n as int))
                    =~= views_of(done) + split_lines(prev + text@.subrange(i as int, n as int)));
            }
        } else {
            cur.push(b);
            proof {
                assert(cur@ =~= prev + seq![b]);
                assert(cur@ + text@.subrange(i + 1, n as int) =~= prev + text@.subrange(
                    i as int,
                    n as int,
                ));
            }
        }
        i += 1;
    }
    let ghost done = lines@;
    let ghost prev = cur@;
    proof {
        assert(prev + text@.subrange(n as int, n as int) =~= prev);
        lemma_split_lines_no_newline(prev);
    }
    lines.push(cur);
    proof {
        assert(views_of(lines@) =~= views_of(done) + seq![prev]);
        assert(views_of(lines@) =~= split_lines(text@));
    }
    lines
}

fn join_range(lines: &Vec<Vec<u8>>, from: usize, to: usize) -> (r: Vec<u8>)
    requires
        from <= to <= lines@.len(),
    ensures
        r@ == join_lines(views_of(lines@).subrange(from as int, to as int)),
{
    let ghost vs = views_of(lines@);
    let mut out: Vec<u8> = Vec::new();
    let mut k: usize = from;
    while k < to
        invariant
            from <= k <= to <= lines@.len(),
            vs == views_of(lines@),
            out@ == join_lines(vs.subrange(from as int, k as int)),
        decreases to - k,
    {
        proof {
            assert(vs.subrange(from as int, k + 1) =~= vs.subrange(from as int, k as int).push(
                vs[k as int],
            ));
            lemma_join_lines_push(vs.subrange(from as int, k as int), vs[k as int]);
        }
        if k > from {
            out.push(NEWLINE);
        } else {
            proof {
                assert(vs.subrange(from as int, from as int) =~= Seq::<Seq<u8>>::empty());
            }
        }
        crate::bytes::append_bytes(&mut out, &lines[k]);
        k += 1;
    }
    proof {
        if from == to {
            assert(vs.subrange(from as int, to as int) =~= Seq::<Seq<u8>>::empty());
        }
    }
    out
}

impl CardContents {
    /// Recover the name and description from a scratch document.  Succeeds
    /// exactly when the document holds a delimiter line after its first
    /// line.
    pub fn parse(text: &Vec<u8>) -> (r: Result<CardContents, ParseError>)
        ensures
            (r is Ok) == (parse_spec(text@) is Some),
            r is Ok ==> parse_spec(text@) == Some(r->Ok_0@),
    {
        let lines = split_lines_exec(text);
        let ghost ls = split_lines(text@);
        let n: usize = lines.len();
        proof {
            lemma_split_lines_nonempty(text@);
        }
        let mut j: usize = 1;
        while j < n
            invariant
                1 <= j <= n,
                n == ls.len(),
                ls == views_of(lines@),
                ls == split_lines(text@),
                delimiter_search(ls, 1) == delimiter_search(ls, j as int),
            decreases n - j,
        {
            proof {
                assert(ls[j as int] == lines@[j as int]@);
            }
            if is_delimiter_line_exec(&lines[j]) {
                proof {
                    assert(delimiter_search(ls, j as int) == Some(j as int));
                    assert(delimiter_search(ls, 1) == Some(j as int));
                }
                let name = join_range(&lines, 0, j);
                let desc = join_range(&lines, j + 1, n);
                proof {
                    assert(name@ == join_lines(ls.subrange(0, j as int)));
                    assert(desc@ == join_lines(ls.subrange(j + 1, ls.len() as int)));
                    assert(parse_spec(text@) == Some(ContentsView { name: name@, desc: desc@ }));
                }
                return Ok(CardContents { name, desc });
            }
            proof {
                assert(delimiter_search(ls, j as int) == delimiter_search(ls, j + 1));
            }
            j += 1;
        }
        Err(ParseError::MissingDelimiter)
    }
}

/// The document with trailing whitespace removed, as the poll loop reads it
/// before parsing.
pub fn trim_end(text: &Vec<u8>) -> (r: Vec<u8>)
    ensures
        r@ == trim_end_spec(text@),
{
    let mut end: usize = text.len();
    proof {
        assert(text@.subrange(0, end as int) =~= text@);
    }
    while end > 0 && is_trailing_whitespace_exec(text[end - 1])
        invariant
            end <= text@.len(),
            trim_end_spec(text@) == trim_end_spec(text@.subrange(0, end as int)),
        decreases end,
    {
        proof {
            let pre = text@.subrange(0, end as int);
            assert(pre.last() == text@[end - 1]);
            assert(pre.drop_last() =~= text@.subrange(0, end - 1));
        }
        end -= 1;
    }
    proof {
        let pre = text@.subrange(0, end as int);
        lemma_trim_end_no_trailing_ws(pre);
    }
    let mut out: Vec<u8> = Vec::new();
    let mut i: usize = 0;
    while i < end
        invariant
            end <= text@.len(),
            i <= end,
            out@ == text@.subrange(0, i as int),
        decreases end - i,
    {
        proof {
            assert(text@.subrange(0, i + 1) =~= text@.subrange(0, i as int).push(text@[i as int]));
        }
        out.push(text[i]);
        i += 1;
    }
    out
}

fn is_trailing_whitespace_exec(b: u8) -> (r: bool)
    ensures
        r == is_trailing_whitespace(b),
{
    b == 32 || b == 9 || b == 10 || b == 13
}

} // verus!
