//! The stores' file format: a pretty-printed JSON document holding one
//! array of flat records under a single key. The renderer and the parser
//! are exact inverses — reading a written document yields the records
//! unchanged — and a document the parser rejects is treated by the stores
//! as an empty collection.

use vstd::prelude::*;
use crate::chars::{string_from_chars, to_chars};
use crate::digits::{is_digit_char, parse_u64_chars, push_digits, spec_digits, spec_parse_u64};
use crate::model::{records_view, Record, RecordV};

verus! {

// ---------------------------------------------------------------------
// The fixed pieces of text between the values.
// ---------------------------------------------------------------------
/// Before the document's key.
pub open spec fn doc_a() -> Seq<char> {
    "{\n  \""@
}

/// Between the document's key and its array.
pub open spec fn doc_b() -> Seq<char> {
    "\": ["@
}

/// The document's opening through the start of the array.
pub open spec fn doc_open(key: Seq<char>) -> Seq<char> {
    doc_a() + key + doc_b()
}

/// Opens a record and names its first field.
pub open spec fn rec_open() -> Seq<char> {
    "\n    {\n      \"id\": "@
}

/// Between a record's id and its URL.
pub open spec fn sep_url() -> Seq<char> {
    ",\n      \"url\": "@
}

/// Between a record's URL and its title.
pub open spec fn sep_title() -> Seq<char> {
    ",\n      \"title\": "@
}

/// Between a record's title and its timestamp.
pub open spec fn sep_ts() -> Seq<char> {
    ",\n      \"timestamp\": "@
}

/// Closes a record.
pub open spec fn rec_close() -> Seq<char> {
    "\n    }"@
}

/// Closes a non-empty array and the document.
pub open spec fn arr_close() -> Seq<char> {
    "\n  ]\n}"@
}

/// Closes an empty array and the document.
pub open spec fn empty_close() -> Seq<char> {
    "]\n}"@
}

// ---------------------------------------------------------------------
// Rendering.
// ---------------------------------------------------------------------
/// How one character is written inside a JSON string.
pub open spec fn esc_char(c: char) -> Seq<char> {
    if c == '"' {
        seq!['\\', '"']
    } else if c == '\\' {
        seq!['\\', '\\']
    } else if c == '\n' {
        seq!['\\', 'n']
    } else if c == '\t' {
        seq!['\\', 't']
    } else if c == '\r' {
        seq!['\\', 'r']
    } else {
        seq![c]
    }
}

/// A string's characters, escaped.
pub open spec fn escape(v: Seq<char>) -> Seq<char>
    decreases v.len(),
{
    if v.len() == 0 {
        Seq::empty()
    } else {
        esc_char(v[0]) + escape(v.drop_first())
    }
}

/// A JSON string: quotes around the escaped characters.
pub open spec fn render_string(v: Seq<char>) -> Seq<char> {
    seq!['"'] + escape(v) + seq!['"']
}

/// One record, pretty-printed.
pub open spec fn render_record(r: RecordV) -> Seq<char> {
    rec_open() + render_string(r.id) + sep_url() + render_string(r.url) + sep_title()
        + render_string(r.title) + sep_ts() + spec_digits(r.timestamp) + rec_close()
}

/// Records after the first, each behind a comma.
pub open spec fn render_more(rs: Seq<RecordV>) -> Seq<char>
    decreases rs.len(),
{
    if rs.len() == 0 {
        Seq::empty()
    } else {
        seq![','] + render_record(rs[0]) + render_more(rs.drop_first())
    }
}

/// The whole document for `rs` under `key`.
pub open spec fn render_doc(key: Seq<char>, rs: Seq<RecordV>) -> Seq<char> {
    if rs.len() == 0 {
        doc_open(key) + empty_close()
    } else {
        doc_open(key) + render_record(rs[0]) + render_more(rs.drop_first()) + arr_close()
    }
}

// ---------------------------------------------------------------------
// Parsing.
// ---------------------------------------------------------------------
/// Consumes `pat` from the front of `s`, or fails.
pub open spec fn expect(pat: Seq<char>, s: Seq<char>) -> Option<Seq<char>> {
    if pat.len() <= s.len() && s.subrange(0, pat.len() as int) == pat {
        Some(s.skip(pat.len() as int))
    } else {
        None
    }
}

/// The character an escape stands for, if the escape is known.
pub open spec fn unescape_char(c: char) -> Option<char> {
    if c == '"' {
        Some('"')
    } else if c == '\\' {
        Some('\\')
    } else if c == '/' {
        Some('/')
    } else if c == 'n' {
        Some('\n')
    } else if c == 't' {
        Some('\t')
    } else if c == 'r' {
        Some('\r')
    } else {
        None
    }
}

/// Reads a string's characters up to its closing quote.
pub open spec fn parse_str_body(s: Seq<char>) -> Option<(Seq<char>, Seq<char>)>
    decreases s.len(),
{
    if s.len() == 0 {
        None
    } else if s[0] == '"' {
        Some((Seq::empty(), s.drop_first()))
    } else if s[0] == '\\' {
        if s.len() >= 2 {
            match unescape_char(s[1]) {
                Some(u) => match parse_str_body(s.skip(2)) {
                    Some((v, rest)) => Some((seq![u] + v, rest)),
                    None => None,
                },
                None => None,
            }
        } else {
            None
        }
    } else {
        match parse_str_body(s.drop_first()) {
            Some((v, rest)) => Some((seq![s[0]] + v, rest)),
            None => None,
        }
    }
}

/// Reads a quoted JSON string.
pub open spec fn parse_string(s: Seq<char>) -> Option<(Seq<char>, Seq<char>)> {
    if s.len() > 0 && s[0] == '"' {
        parse_str_body(s.drop_first())
    } else {
        None
    }
}

/// Reads one record.
pub open spec fn parse_record(s: Seq<char>) -> Option<(RecordV, Seq<char>)> {
    match expect(rec_open(), s) {
        None => None,
        Some(s1) => match parse_string(s1) {
            None => None,
            Some((id, s2)) => match expect(sep_url(), s2) {
                None => None,
                Some(s3) => match parse_string(s3) {
                    None => None,
                    Some((url, s4)) => match expect(sep_title(), s4) {
                        None => None,
                        Some(s5) => match parse_string(s5) {
                            None => None,
                            Some((title, s6)) => match expect(sep_ts(), s6) {
                                None => None,
                                Some(s7) => match spec_parse_u64(s7) {
                                    None => None,
                                    Some((timestamp, s8)) => match expect(rec_close(), s8) {
                                        None => None,
                                        Some(s9) => Some(
                                            (RecordV { id, url, title, timestamp }, s9),
                                        ),
                                    },
                                },
                            },
                        },
                    },
                },
            },
        },
    }
}

/// Reads the records after the first: each behind a comma, stopping at
/// the first character that opens no further record.
pub open spec fn parse_more_records(s: Seq<char>) -> Option<(Seq<RecordV>, Seq<char>)>
    decreases s.len(),
{
    if s.len() == 0 {
        Some((Seq::empty(), s))
    } else if s[0] == ',' {
        match parse_record(s.drop_first()) {
            Some((r, rest)) => if rest.len() < s.len() {
                match parse_more_records(rest) {
                    Some((rs, rest2)) => Some((seq![r] + rs, rest2)),
                    None => None,
                }
            } else {
                None
            },
            None => None,
        }
    } else {
        Some((Seq::empty(), s))
    }
}

/// Reads a whole document under `key`: its records, with nothing after
/// the closing brace.
pub open spec fn parse_doc(key: Seq<char>, s: Seq<char>) -> Option<Seq<RecordV>> {
    match expect(doc_open(key), s) {
        None => None,
        Some(s1) => if s1.len() > 0 && s1[0] == ']' {
            match expect(empty_close(), s1) {
                Some(rest) => if rest.len() == 0 {
                    Some(Seq::empty())
                } else {
                    None
                },
                None => None,
            }
        } else {
            match parse_record(s1) {
                Some((r, s2)) => match parse_more_records(s2) {
                    Some((rs, s3)) => match expect(arr_close(), s3) {
                        Some(rest) => if rest.len() == 0 {
                            Some(seq![r] + rs)
                        } else {
                            None
                        },
                        None => None,
                    },
                    None => None,
                },
                None => None,
            }
        },
    }
}

// ---------------------------------------------------------------------
// The renderer.
// ---------------------------------------------------------------------
/// Appends the escaped, quoted form of `v` to `out`.
#[verifier::loop_isolation(false)]
fn push_rendered_string(v: &Vec<char>, out: &mut Vec<char>)
    ensures
        final(out)@ == old(out)@ + render_string(v@),
{
    out.push('"');
    let n = v.len();
    let mut i: usize = 0;
    while i < n
        invariant
            i <= n,
            n == v@.len(),
            out@ == old(out)@ + seq!['"'] + escape(v@.take(i as int)),
        decreases n - i,
    {
        let ghost pre = v@.take(i as int);
        let c = v[i];
        if c == '"' {
            out.push('\\');
            out.push('"');
        } else if c == '\\' {
            out.push('\\');
            out.push('\\');
        } else if c == '\n' {
            out.push('\\');
            out.push('n');
        } else if c == '\t' {
            out.push('\\');
            out.push('t');
        } else if c == '\r' {
            out.push('\\');
            out.push('r');
        } else {
            out.push(c);
        }
        i = i + 1;
        proof {
            assert(v@.take(i as int) =~= pre + seq![c]);
            lemma_escape_concat(pre, seq![c]);
            assert(seq![c].drop_first() =~= Seq::<char>::empty());
            assert(escape(Seq::<char>::empty()) == Seq::<char>::empty());
            assert(escape(seq![c]) =~= esc_char(c));
            assert(out@ =~= old(out)@ + seq!['"'] + escape(v@.take(i as int)));
        }
    }
    out.push('"');
    proof {
        assert(v@.take(n as int) =~= v@);
        assert(out@ =~= old(out)@ + render_string(v@));
    }
}

/// Escaping distributes over concatenation.
proof fn lemma_escape_concat(a: Seq<char>, b: Seq<char>)
    ensures
        escape(a + b) == escape(a) + escape(b),
    decreases a.len(),
{
    if a.len() == 0 {
        assert(a + b =~= b);
        assert(escape(a) + escape(b) =~= escape(b));
    } else {
        assert((a + b)[0] == a[0]);
        assert((a + b).drop_first() =~= a.drop_first() + b);
        lemma_escape_concat(a.drop_first(), b);
        assert(escape(a + b) =~= escape(a) + escape(b));
    }
}

/// Appends the fixed text `lit` to `out`.
fn push_lit(lit: &str, out: &mut Vec<char>)
    ensures
        final(out)@ == old(out)@ + lit@,
{
    let mut t = to_chars(lit);
    out.append(&mut t);
}

/// Appends one rendered record to `out`.
fn push_rendered_record(r: &Record, out: &mut Vec<char>)
    ensures
        final(out)@ == old(out)@ + render_record(r@),
{
    push_lit("\n    {\n      \"id\": ", out);
    let idc = to_chars(r.id.as_str());
    push_rendered_string(&idc, out);
    push_lit(",\n      \"url\": ", out);
    let urlc = to_chars(r.url.as_str());
    push_rendered_string(&urlc, out);
    push_lit(",\n      \"title\": ", out);
    let titlec = to_chars(r.title.as_str());
    push_rendered_string(&titlec, out);
    push_lit(",\n      \"timestamp\": ", out);
    push_digits(r.timestamp, out);
    push_lit("\n    }", out);
    proof {
        assert(out@ =~= old(out)@ + render_record(r@));
    }
}

/// Writes the document holding `records` under `key`.
#[verifier::loop_isolation(false)]
pub fn render_doc_text(key: &str, records: &Vec<Record>) -> (s: String)
    ensures
        s@ == render_doc(key@, records_view(records@)),
{
    let mut out: Vec<char> = Vec::new();
    push_lit("{\n  \"", &mut out);
    let keyc = to_chars(key);
    let mut keyv = keyc;
    out.append(&mut keyv);
    push_lit("\": [", &mut out);
    proof {
        assert(out@ =~= doc_open(key@));
    }
    if records.len() == 0 {
        push_lit("]\n}", &mut out);
        proof {
            assert(out@ =~= render_doc(key@, records_view(records@)));
        }
    } else {
        push_rendered_record(&records[0], &mut out);
        let n = records.len();
        let mut i: usize = 1;
        while i < n
            invariant
                1 <= i <= n,
                n == records@.len(),
                out@ == doc_open(key@) + render_record(records@[0]@) + render_more(
                    records_view(records@).subrange(1, i as int),
                ),
            decreases n - i,
        {
            let ghost pre = records_view(records@).subrange(1, i as int);
            push_lit(",", &mut out);
            push_rendered_record(&records[i], &mut out);
            i = i + 1;
            proof {
                reveal_strlit(",");
                let r = records@[i as int - 1]@;
                assert(records_view(records@)[i as int - 1] == r);
                assert(records_view(records@).subrange(1, i as int) =~= pre + seq![r]);
                lemma_render_more_concat(pre, seq![r]);
                assert(seq![r].drop_first() =~= Seq::<RecordV>::empty());
                assert(render_more(Seq::<RecordV>::empty()) == Seq::<char>::empty());
                assert(render_more(seq![r]) =~= seq![','] + render_record(r));
                assert(","@ =~= seq![',']);
                assert(out@ =~= doc_open(key@) + render_record(records@[0]@) + render_more(
                    records_view(records@).subrange(1, i as int),
                ));
            }
        }
        push_lit("\n  ]\n}", &mut out);
        proof {
            assert(records_view(records@).subrange(1, n as int) =~= records_view(
                records@,
            ).drop_first());
            assert(records_view(records@)[0] == records@[0]@);
            assert(out@ =~= render_doc(key@, records_view(records@)));
        }
    }
    string_from_chars(&out)
}

/// Rendering trailing records distributes over concatenation.
proof fn lemma_render_more_concat(a: Seq<RecordV>, b: Seq<RecordV>)
    ensures
        render_more(a + b) == render_more(a) + render_more(b),
    decreases a.len(),
{
    if a.len() == 0 {
        assert(a + b =~= b);
        assert(render_more(a) + render_more(b) =~= render_more(b));
    } else {
        assert((a + b)[0] == a[0]);
        assert((a + b).drop_first() =~= a.drop_first() + b);
        lemma_render_more_concat(a.drop_first(), b);
        assert(render_more(a + b) =~= render_more(a) + render_more(b));
    }
}

// ---------------------------------------------------------------------
// The parser.
// ---------------------------------------------------------------------
/// Consumes the fixed text `pat` at position `i` of `s`.
#[verifier::loop_isolation(false)]
fn expect_at(s: &Vec<char>, i: usize, pat: &Vec<char>) -> (r: Option<usize>)
    requires
        i <= s@.len(),
    ensures
        match r {
            Some(j) => i <= j <= s@.len() && expect(pat@, s@.skip(i as int)) == Some(
                s@.skip(j as int),
            ),
            None => expect(pat@, s@.skip(i as int)) is None,
        },
{
    let m = pat.len();
    if s.len() - i < m {
        return None;
    }
    let mut k: usize = 0;
    while k < m
        invariant
            k <= m,
            m == pat@.len(),
            i + m <= s@.len(),
            forall|j: int| 0 <= j < k ==> s@[i + j] == pat@[j],
        decreases m - k,
    {
        if s[i + k] != pat[k] {
            proof {
                let tail = s@.skip(i as int);
                assert(tail.subrange(0, m as int)[k as int] == s@[i + k]);
            }
            return None;
        }
        k = k + 1;
    }
    proof {
        let tail = s@.skip(i as int);
        assert(tail.subrange(0, m as int) =~= pat@);
        assert(tail.skip(m as int) =~= s@.skip(i as int + m as int));
    }
    Some(i + m)
}

/// Reads a quoted string at position `i` of `s`.
#[verifier::loop_isolation(false)]
fn parse_string_at(s: &Vec<char>, i: usize) -> (r: Option<(Vec<char>, usize)>)
    requires
        i <= s@.len(),
    ensures
        match r {
            Some((v, j)) => i <= j <= s@.len() && parse_string(s@.skip(i as int)) == Some(
                (v@, s@.skip(j as int)),
            ),
            None => parse_string(s@.skip(i as int)) is None,
        },
{
    if i == s.len() {
        return None;
    }
    proof {
        assert(s@.skip(i as int)[0] == s@[i as int]);
    }
    if s[i] != '"' {
        return None;
    }
    let ghost start = i + 1;
    proof {
        assert(s@.skip(i as int).drop_first() =~= s@.skip(i as int + 1));
    }
    let mut out: Vec<char> = Vec::new();
    let mut k: usize = i + 1;
    loop
        invariant
            i + 1 <= k <= s@.len(),
            parse_str_body(s@.skip(start)) == (match parse_str_body(s@.skip(k as int)) {
                Some((v, rest)) => Some((out@ + v, rest)),
                None => None::<(Seq<char>, Seq<char>)>,
            }),
        decreases s@.len() - k,
    {
        if k == s.len() {
            proof {
                assert(s@.skip(k as int).len() == 0);
            }
            return None;
        }
        let c = s[k];
        proof {
            assert(s@.skip(k as int)[0] == s@[k as int]);
            assert(s@.skip(k as int).drop_first() =~= s@.skip(k as int + 1));
        }
        if c == '"' {
            proof {
                assert(out@ + Seq::<char>::empty() =~= out@);
                assert(parse_string(s@.skip(i as int)) == Some(
                    (out@, s@.skip(k as int + 1)),
                ));
            }
            return Some((out, k + 1));
        } else if c == '\\' {
            if k + 1 == s.len() {
                proof {
                    assert(s@.skip(k as int).len() == 1);
                }
                return None;
            }
            let e = s[k + 1];
            proof {
                assert(s@.skip(k as int)[1] == s@[k as int + 1]);
                assert(s@.skip(k as int).skip(2) =~= s@.skip(k as int + 2));
            }
            let u: char;
            if e == '"' {
                u = '"';
            } else if e == '\\' {
                u = '\\';
            } else if e == '/' {
                u = '/';
            } else if e == 'n' {
                u = '\n';
            } else if e == 't' {
                u = '\t';
            } else if e == 'r' {
                u = '\r';
            } else {
                return None;
            }
            let ghost preout = out@;
            out.push(u);
            k = k + 2;
            proof {
                assert(forall|v: Seq<char>| preout + (seq![u] + v) =~= (preout.push(u)) + v);
            }
        } else {
            let ghost preout = out@;
            out.push(c);
            k = k + 1;
            proof {
                assert(forall|v: Seq<char>| preout + (seq![c] + v) =~= (preout.push(c)) + v);
            }
        }
    }
}

/// Reads one record at position `i` of `s`.
fn parse_record_at(s: &Vec<char>, i: usize) -> (r: Option<(Record, usize)>)
    requires
        i <= s@.len(),
    ensures
        match r {
            Some((rec, j)) => i <= j <= s@.len() && parse_record(s@.skip(i as int)) == Some(
                (rec@, s@.skip(j as int)),
            ),
            None => parse_record(s@.skip(i as int)) is None,
        },
{
    let pat_open = to_chars("\n    {\n      \"id\": ");
    let i1 = match expect_at(s, i, &pat_open) {
        None => {
            return None;
        },
        Some(j) => j,
    };
    let (idv, i2) = match parse_string_at(s, i1) {
        None => {
            return None;
        },
        Some(x) => x,
    };
    let pat_url = to_chars(",\n      \"url\": ");
    let i3 = match expect_at(s, i2, &pat_url) {
        None => {
            return None;
        },
        Some(j) => j,
    };
    let (urlv, i4) = match parse_string_at(s, i3) {
        None => {
            return None;
        },
        Some(x) => x,
    };
    let pat_title = to_chars(",\n      \"title\": ");
    let i5 = match expect_at(s, i4, &pat_title) {
        None => {
            return None;
        },
        Some(j) => j,
    };
    let (titlev, i6) = match parse_string_at(s, i5) {
        None => {
            return None;
        },
        Some(x) => x,
    };
    let pat_ts = to_chars(",\n      \"timestamp\": ");
    let i7 = match expect_at(s, i6, &pat_ts) {
        None => {
            return None;
        },
        Some(j) => j,
    };
    let (timestamp, i8) = match parse_u64_chars(s, i7) {
        None => {
            return None;
        },
        Some(x) => x,
    };
    let pat_close = to_chars("\n    }");
    let i9 = match expect_at(s, i8, &pat_close) {
        None => {
            return None;
        },
        Some(j) => j,
    };
    let rec = Record {
        id: string_from_chars(&idv),
        url: string_from_chars(&urlv),
        title: string_from_chars(&titlev),
        timestamp,
    };
    proof {
        assert(parse_record(s@.skip(i as int)) == Some((rec@, s@.skip(i9 as int))));
    }
    Some((rec, i9))
}

/// Reads a whole document under `key` out of `text`: its records, or
/// nothing when the text is not exactly a rendered document.
#[verifier::rlimit(60)]
#[verifier::loop_isolation(false)]
pub fn parse_doc_text(key: &str, text: &str) -> (r: Option<Vec<Record>>)
    ensures
        match r {
            Some(v) => parse_doc(key@, text@) == Some(records_view(v@)),
            None => parse_doc(key@, text@) is None,
        },
{
    let s = to_chars(text);
    let mut pat_open = to_chars("{\n  \"");
    let mut keyc = to_chars(key);
    pat_open.append(&mut keyc);
    let mut tailc = to_chars("\": [");
    pat_open.append(&mut tailc);
    proof {
        assert(pat_open@ =~= doc_open(key@));
        assert(s@.skip(0) =~= s@);
    }
    let i1 = match expect_at(&s, 0, &pat_open) {
        None => {
            return None;
        },
        Some(j) => j,
    };
    if i1 < s.len() && s[i1] == ']' {
        proof {
            assert(s@.skip(i1 as int)[0] == s@[i1 as int]);
        }
        let pat_empty = to_chars("]\n}");
        let j = match expect_at(&s, i1, &pat_empty) {
            None => {
                return None;
            },
            Some(j) => j,
        };
        if j == s.len() {
            let out: Vec<Record> = Vec::new();
            proof {
                assert(s@.skip(j as int).len() == 0);
                assert(records_view(out@) =~= Seq::<RecordV>::empty());
            }
            return Some(out);
        } else {
            proof {
                assert(s@.skip(j as int).len() > 0);
            }
            return None;
        }
    }
    proof {
        if s@.skip(i1 as int).len() > 0 {
            assert(s@.skip(i1 as int)[0] == s@[i1 as int]);
        }
    }
    let (first, i2) = match parse_record_at(&s, i1) {
        None => {
            return None;
        },
        Some(x) => x,
    };
    let mut out: Vec<Record> = Vec::new();
    out.push(first);
    let mut k = i2;
    proof {
        assert(records_view(out@) =~= seq![first@]);
    }
    loop
        invariant
            i2 <= k <= s@.len(),
            out@.len() >= 1,
            records_view(out@) == seq![out@[0]@] + records_view(out@).drop_first(),
            out@[0]@ == first@,
            parse_more_records(s@.skip(i2 as int)) == (match parse_more_records(
                s@.skip(k as int),
            ) {
                Some((rs, rest)) => Some((records_view(out@).drop_first() + rs, rest)),
                None => None::<(Seq<RecordV>, Seq<char>)>,
            }),
        decreases s@.len() - k,
    {
        if k == s.len() {
            break ;
        }
        proof {
            assert(s@.skip(k as int)[0] == s@[k as int]);
            assert(s@.skip(k as int).drop_first() =~= s@.skip(k as int + 1));
        }
        if s[k] != ',' {
            break ;
        }
        let (rec, j) = match parse_record_at(&s, k + 1) {
            None => {
                return None;
            },
            Some(x) => x,
        };
        proof {
            assert(s@.skip(j as int).len() < s@.skip(k as int).len());
        }
        let ghost preout = out@;
        out.push(rec);
        k = j;
        proof {
            assert(records_view(out@)[0] == out@[0]@);
            assert(records_view(out@).drop_first() =~= records_view(preout).drop_first().push(
                rec@,
            ));
            assert(forall|rs: Seq<RecordV>, c: RecordV|
                records_view(preout).drop_first() + (seq![c] + rs) =~= (records_view(
                    preout,
                ).drop_first().push(c)) + rs);
        }
    }
    proof {
        if k == s@.len() {
            assert(s@.skip(k as int).len() == 0);
        }
        assert(records_view(out@).drop_first() + Seq::<RecordV>::empty() =~= records_view(
            out@,
        ).drop_first());
    }
    let pat_arr = to_chars("\n  ]\n}");
    let j = match expect_at(&s, k, &pat_arr) {
        None => {
            return None;
        },
        Some(j) => j,
    };
    if j == s.len() {
        proof {
            assert(s@.skip(j as int).len() == 0);
            assert(seq![first@] + records_view(out@).drop_first() =~= records_view(out@));
        }
        Some(out)
    } else {
        proof {
            assert(s@.skip(j as int).len() > 0);
        }
        None
    }
}

// ---------------------------------------------------------------------
// The round trip: parsing inverts rendering.
// ---------------------------------------------------------------------
/// Consuming a pattern from text that starts with it leaves the tail.
proof fn lemma_expect_prefix(pat: Seq<char>, rest: Seq<char>)
    ensures
        expect(pat, pat + rest) == Some(rest),
{
    assert((pat + rest).subrange(0, pat.len() as int) =~= pat);
    assert((pat + rest).skip(pat.len() as int) =~= rest);
}

/// Reading an escaped string body back yields its characters.
proof fn lemma_str_body_round_trip(v: Seq<char>, rest: Seq<char>)
    ensures
        parse_str_body(escape(v) + (seq!['"'] + rest)) == Some((v, rest)),
    decreases v.len(),
{
    let s = escape(v) + (seq!['"'] + rest);
    if v.len() == 0 {
        assert(s =~= seq!['"'] + rest);
        assert(s[0] == '"');
        assert(s.drop_first() =~= rest);
    } else {
        let c = v[0];
        let tail = escape(v.drop_first()) + (seq!['"'] + rest);
        lemma_str_body_round_trip(v.drop_first(), rest);
        if c == '"' {
            assert(s =~= seq!['\\', '"'] + tail);
            assert(s[0] == '\\' && s[1] == '"');
            assert(s.skip(2) =~= tail);
            assert(seq![c] + v.drop_first() =~= v);
        } else if c == '\\' {
            assert(s =~= seq!['\\', '\\'] + tail);
            assert(s[0] == '\\' && s[1] == '\\');
            assert(s.skip(2) =~= tail);
            assert(seq![c] + v.drop_first() =~= v);
        } else if c == '\n' {
            assert(s =~= seq!['\\', 'n'] + tail);
            assert(s[0] == '\\' && s[1] == 'n');
            assert(s.skip(2) =~= tail);
            assert(seq![c] + v.drop_first() =~= v);
        } else if c == '\t' {
            assert(s =~= seq!['\\', 't'] + tail);
            assert(s[0] == '\\' && s[1] == 't');
            assert(s.skip(2) =~= tail);
            assert(seq![c] + v.drop_first() =~= v);
        } else if c == '\r' {
            assert(s =~= seq!['\\', 'r'] + tail);
            assert(s[0] == '\\' && s[1] == 'r');
            assert(s.skip(2) =~= tail);
            assert(seq![c] + v.drop_first() =~= v);
        } else {
            assert(s =~= seq![c] + tail);
            assert(s[0] == c);
            assert(s.drop_first() =~= tail);
            assert(seq![c] + v.drop_first() =~= v);
        }
    }
}

/// Reading a rendered string back yields the string.
proof fn lemma_string_round_trip(v: Seq<char>, rest: Seq<char>)
    ensures
        parse_string(render_string(v) + rest) == Some((v, rest)),
{
    let s = render_string(v) + rest;
    assert(s =~= seq!['"'] + (escape(v) + (seq!['"'] + rest)));
    assert(s[0] == '"');
    assert(s.drop_first() =~= escape(v) + (seq!['"'] + rest));
    lemma_str_body_round_trip(v, rest);
}

/// Reading a rendered record back yields the record.
#[verifier::rlimit(60)]
proof fn lemma_record_round_trip(r: RecordV, rest: Seq<char>)
    ensures
        parse_record(render_record(r) + rest) == Some((r, rest)),
{
    let a1 = render_string(r.id);
    let a2 = render_string(r.url);
    let a3 = render_string(r.title);
    let d = spec_digits(r.timestamp);
    let t8 = rec_close() + rest;
    let t7 = d + t8;
    let t6 = sep_ts() + t7;
    let t5 = a3 + t6;
    let t4 = sep_title() + t5;
    let t3 = a2 + t4;
    let t2 = sep_url() + t3;
    let t1 = a1 + t2;
    let s = render_record(r) + rest;
    assert(s =~= rec_open() + t1);
    lemma_expect_prefix(rec_open(), t1);
    lemma_string_round_trip(r.id, t2);
    lemma_expect_prefix(sep_url(), t3);
    lemma_string_round_trip(r.url, t4);
    lemma_expect_prefix(sep_title(), t5);
    lemma_string_round_trip(r.title, t6);
    lemma_expect_prefix(sep_ts(), t7);
    reveal_strlit("\n    }");
    assert(rec_close()[0] == '\n');
    assert(t8[0] == '\n');
    assert(!is_digit_char('\n'));
    crate::digits::lemma_digits_round_trip(r.timestamp, t8);
    lemma_expect_prefix(rec_close(), rest);
    assert((RecordV { id: r.id, url: r.url, title: r.title, timestamp: r.timestamp }) =~= r);
}

/// Reading rendered trailing records back yields them, as long as what
/// follows opens no further record.
#[verifier::rlimit(60)]
proof fn lemma_more_round_trip(rs: Seq<RecordV>, rest: Seq<char>)
    requires
        rest.len() == 0 || rest[0] != ',',
    ensures
        parse_more_records(render_more(rs) + rest) == Some((rs, rest)),
    decreases rs.len(),
{
    let s = render_more(rs) + rest;
    if rs.len() == 0 {
        assert(s =~= rest);
        assert(rs =~= Seq::<RecordV>::empty());
    } else {
        let t = render_more(rs.drop_first()) + rest;
        assert(s =~= seq![','] + (render_record(rs[0]) + t));
        assert(s[0] == ',');
        assert(s.drop_first() =~= render_record(rs[0]) + t);
        lemma_record_round_trip(rs[0], t);
        assert(t.len() < s.len());
        lemma_more_round_trip(rs.drop_first(), rest);
        assert(seq![rs[0]] + rs.drop_first() =~= rs);
    }
}

/// Reading a rendered document back yields exactly the records it was
/// rendered from: the stores' save and load are inverses.
#[verifier::rlimit(60)]
pub proof fn lemma_doc_round_trip(key: Seq<char>, rs: Seq<RecordV>)
    ensures
        parse_doc(key, render_doc(key, rs)) == Some(rs),
{
    let s = render_doc(key, rs);
    if rs.len() == 0 {
        assert(s =~= doc_open(key) + empty_close());
        lemma_expect_prefix(doc_open(key), empty_close());
        reveal_strlit("]\n}");
        assert(empty_close()[0] == ']');
        assert(empty_close() =~= empty_close() + Seq::<char>::empty());
        lemma_expect_prefix(empty_close(), Seq::<char>::empty());
        assert(rs =~= Seq::<RecordV>::empty());
    } else {
        let t = render_record(rs[0]) + (render_more(rs.drop_first()) + arr_close());
        assert(s =~= doc_open(key) + t);
        lemma_expect_prefix(doc_open(key), t);
        reveal_strlit("\n    {\n      \"id\": ");
        reveal_strlit("\n  ]\n}");
        assert(rec_open()[0] == '\n');
        assert(t[0] == '\n');
        lemma_record_round_trip(rs[0], render_more(rs.drop_first()) + arr_close());
        assert(arr_close()[0] == '\n');
        lemma_more_round_trip(rs.drop_first(), arr_close());
        assert(arr_close() =~= arr_close() + Seq::<char>::empty());
        lemma_expect_prefix(arr_close(), Seq::<char>::empty());
        assert(seq![rs[0]] + rs.drop_first() =~= rs);
    }
}

} // verus!
