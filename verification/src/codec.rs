use vstd::prelude::*;

use crate::errs::BitcacheError;
use crate::index::{distinct_keys, EntryView, Metadata, MetadataEntry};
use crate::strutil;

verus! {

// ---------------------------------------------------------------------------
// The canonical document form.
//
// The index is persisted as one JSON object whose members are keyed by the
// digest strings:
//
//   {"<digest>":{"md5":"<digest>","binary_path":"<path>",
//    "source_file":"<name>","timestamp":"<time>"}, ...}
//
// `serialize_metadata` writes exactly this canonical form: no whitespace,
// fields in the fixed order above, and `"` and `\` escaped with a backslash.
// `parse_metadata` reads it back, also accepting whitespace between tokens,
// an entry's four fields in any order, and the JSON escapes \/ \n \t \r \b
// \f in string values; anything else is a `ParseError`, as is a member
// whose key differs from its `md5` field, a field that appears twice, or a
// digest that appears twice. Control characters in values pass through
// unescaped in both directions, so the round trip holds for every string.
// ---------------------------------------------------------------------------
/// The escape of one character inside a quoted string.
pub open spec fn esc_char(c: char) -> Seq<char> {
    if c == '"' {
        seq!['\\', '"']
    } else if c == '\\' {
        seq!['\\', '\\']
    } else {
        seq![c]
    }
}

/// The escape of a whole string value.
pub open spec fn esc(s: Seq<char>) -> Seq<char>
    decreases s.len(),
{
    if s.len() == 0 {
        Seq::empty()
    } else {
        esc_char(s[0]) + esc(s.subrange(1, s.len() as int))
    }
}

/// A string value as it stands in the document: quoted and escaped.
pub open spec fn quoted(s: Seq<char>) -> Seq<char> {
    seq!['"'] + esc(s) + seq!['"']
}

pub open spec fn key_md5() -> Seq<char> {
    "md5"@
}

pub open spec fn key_binary_path() -> Seq<char> {
    "binary_path"@
}

pub open spec fn key_source_file() -> Seq<char> {
    "source_file"@
}

pub open spec fn key_timestamp() -> Seq<char> {
    "timestamp"@
}

/// One `"key":"value"` pair. The four keys contain no escapable character,
/// so they stand verbatim.
pub open spec fn ser_kv(k: Seq<char>, v: Seq<char>) -> Seq<char> {
    seq!['"'] + k + seq!['"', ':'] + quoted(v)
}

/// The object recorded under a digest key: the four fields of its entry.
pub open spec fn ser_obj(e: EntryView) -> Seq<char> {
    seq!['{'] + ser_kv(key_md5(), e.md5) + seq![','] + ser_kv(key_binary_path(), e.binary_path)
        + seq![','] + ser_kv(key_source_file(), e.source_file) + seq![','] + ser_kv(
        key_timestamp(),
        e.timestamp,
    ) + seq!['}']
}

/// One member of the top-level object: the digest key and its object.
pub open spec fn ser_member(e: EntryView) -> Seq<char> {
    quoted(e.md5) + seq![':'] + ser_obj(e)
}

/// The members from position `i` on, separated by commas.
pub open spec fn ser_members_from(s: Seq<EntryView>, i: int) -> Seq<char>
    decreases s.len() - i,
{
    if i < 0 || i >= s.len() {
        Seq::empty()
    } else if i == s.len() - 1 {
        ser_member(s[i])
    } else {
        ser_member(s[i]) + seq![','] + ser_members_from(s, i + 1)
    }
}

/// The whole document.
pub open spec fn ser_doc(s: Seq<EntryView>) -> Seq<char> {
    seq!['{'] + ser_members_from(s, 0) + seq!['}']
}

/// Escaping distributes over concatenation.
proof fn lemma_esc_append(a: Seq<char>, b: Seq<char>)
    ensures
        esc(a + b) == esc(a) + esc(b),
    decreases a.len(),
{
    if a.len() == 0 {
        assert(a + b =~= b);
        assert(esc(a) + esc(b) =~= esc(b));
    } else {
        let ab = a + b;
        assert(ab[0] == a[0]);
        assert(ab.subrange(1, ab.len() as int) =~= a.subrange(1, a.len() as int) + b);
        lemma_esc_append(a.subrange(1, a.len() as int), b);
        assert(esc(a + b) =~= esc(a) + esc(b));
    }
}

/// Escaping one more character appends its escape.
proof fn lemma_esc_snoc(s: Seq<char>, i: int)
    requires
        0 <= i < s.len(),
    ensures
        esc(s.subrange(0, i + 1)) == esc(s.subrange(0, i)) + esc_char(s[i]),
{
    let a = s.subrange(0, i);
    let c = s.subrange(i, i + 1);
    assert(s.subrange(0, i + 1) =~= a + c);
    lemma_esc_append(a, c);
    assert(c.len() == 1);
    assert(c[0] == s[i]);
    assert(c.subrange(1, c.len() as int) =~= Seq::<char>::empty());
    assert(esc(c) == esc_char(c[0]) + esc(c.subrange(1, c.len() as int)));
    assert(esc(Seq::<char>::empty()) == Seq::<char>::empty());
    assert(esc(c) =~= esc_char(s[i]));
}

/// Append `quoted(v@)` to `out`.
#[verifier::loop_isolation(false)]
fn append_quoted(out: &mut String, v: &str)
    ensures
        final(out)@ == old(out)@ + quoted(v@),
{
    out.append("\"");
    let n = v.unicode_len();
    let mut i: usize = 0;
    proof {
        reveal_strlit("\"");
        assert(v@.subrange(0, 0) =~= Seq::<char>::empty());
        assert(out@ =~= old(out)@ + seq!['"'] + esc(v@.subrange(0, 0)));
    }
    while i < n
        invariant
            n == v@.len(),
            0 <= i <= n,
            out@ == old(out)@ + seq!['"'] + esc(v@.subrange(0, i as int)),
        decreases n - i,
    {
        let c = v.get_char(i);
        if c == '"' {
            out.append("\\\"");
            proof {
                reveal_strlit("\\\"");
                assert("\\\""@ =~= esc_char(v@[i as int]));
            }
        } else if c == '\\' {
            out.append("\\\\");
            proof {
                reveal_strlit("\\\\");
                assert("\\\\"@ =~= esc_char(v@[i as int]));
            }
        } else {
            let piece = v.substring_char(i, i + 1);
            out.append(piece);
            proof {
                assert(piece@ =~= esc_char(v@[i as int]));
            }
        }
        proof {
            lemma_esc_snoc(v@, i as int);
            assert(out@ =~= old(out)@ + seq!['"'] + esc(v@.subrange(0, i + 1)));
        }
        i += 1;
    }
    out.append("\"");
    proof {
        reveal_strlit("\"");
        assert(v@.subrange(0, n as int) =~= v@);
        assert(out@ =~= old(out)@ + quoted(v@));
    }
}

/// Append `ser_kv(key@, v@)` to `out`; `prefix` must be the verbatim
/// rendering of `"key":` followed by the opening quote.
fn append_kv(out: &mut String, prefix: &str, v: &str, Ghost(key): Ghost<Seq<char>>)
    requires
        prefix@ == seq!['"'] + key + seq!['"', ':'],
    ensures
        final(out)@ == old(out)@ + ser_kv(key, v@),
{
    out.append(prefix);
    append_quoted(out, v);
    proof {
        assert(out@ =~= old(out)@ + ser_kv(key, v@));
    }
}

/// Append `ser_member(e@)` to `out`.
fn append_member(out: &mut String, e: &MetadataEntry)
    ensures
        final(out)@ == old(out)@ + ser_member(e@),
{
    proof {
        reveal_strlit(":{");
        reveal_strlit(",");
        reveal_strlit("}");
        reveal_strlit("\"md5\":");
        reveal_strlit("md5");
        reveal_strlit("\"binary_path\":");
        reveal_strlit("binary_path");
        reveal_strlit("\"source_file\":");
        reveal_strlit("source_file");
        reveal_strlit("\"timestamp\":");
        reveal_strlit("timestamp");
        assert("\"md5\":"@ =~= seq!['"'] + key_md5() + seq!['"', ':']);
        assert("\"binary_path\":"@ =~= seq!['"'] + key_binary_path() + seq!['"', ':']);
        assert("\"source_file\":"@ =~= seq!['"'] + key_source_file() + seq!['"', ':']);
        assert("\"timestamp\":"@ =~= seq!['"'] + key_timestamp() + seq!['"', ':']);
    }
    append_quoted(out, e.md5.as_str());
    out.append(":{");
    append_kv(out, "\"md5\":", e.md5.as_str(), Ghost(key_md5()));
    out.append(",");
    append_kv(out, "\"binary_path\":", e.binary_path.as_str(), Ghost(key_binary_path()));
    out.append(",");
    append_kv(out, "\"source_file\":", e.source_file.as_str(), Ghost(key_source_file()));
    out.append(",");
    append_kv(out, "\"timestamp\":", e.timestamp.as_str(), Ghost(key_timestamp()));
    out.append("}");
    proof {
        assert(out@ =~= old(out)@ + ser_member(e@));
    }
}

/// Serialize the index to its canonical JSON document. Entries are written
/// in the index's own order, so saving the same index twice gives the same
/// text and small changes give small diffs.
#[verifier::loop_isolation(false)]
pub fn serialize_metadata(m: &Metadata) -> (r: String)
    ensures
        r@ == ser_doc(m@),
{
    let mut out = String::new();
    out.append("{");
    let n = m.len();
    proof {
        reveal_strlit("{");
    }
    let mut i: usize = 0;
    while i < n
        invariant
            n == m@.len(),
            0 <= i <= n,
            out@ + ser_members_from(m@, i as int) == seq!['{'] + ser_members_from(m@, 0),
        decreases n - i,
    {
        append_member(&mut out, m.entry_at(i));
        if i + 1 < n {
            out.append(",");
            proof {
                reveal_strlit(",");
            }
        }
        proof {
            assert(out@ + ser_members_from(m@, i + 1) =~= seq!['{'] + ser_members_from(m@, 0));
        }
        i += 1;
    }
    out.append("}");
    proof {
        reveal_strlit("}");
        assert(ser_members_from(m@, n as int) =~= Seq::<char>::empty());
        assert(out@ =~= ser_doc(m@));
    }
    out
}

// ---------------------------------------------------------------------------
// The parser. Each spec function reads the document from a position and
// returns the value recognised there with the position after it, or `None`;
// each exec function mirrors one spec function exactly.
// ---------------------------------------------------------------------------
/// JSON whitespace, allowed between tokens.
pub open spec fn is_ws(c: char) -> bool {
    c == ' ' || c == '\n' || c == '\t' || c == '\r'
}

/// The first position at or after `i` holding no whitespace.
pub open spec fn skip_ws(s: Seq<char>, i: int) -> int
    decreases s.len() - i,
{
    if 0 <= i && i < s.len() && is_ws(s[i]) {
        skip_ws(s, i + 1)
    } else {
        i
    }
}

/// The character denoted by a backslash escape, if the escape is known.
pub open spec fn unescape_char(c: char) -> Option<char> {
    if c == '"' {
        Some('"')
    } else if c == '\\' {
        Some('\\')
    } else if c == '/' {
        Some('/')
    } else if c == 'n' {
        Some('\n')
    } else if c == 't' {
        Some('\t')
    } else if c == 'r' {
        Some('\r')
    } else if c == 'b' {
        Some('\u{8}')
    } else if c == 'f' {
        Some('\u{c}')
    } else {
        None
    }
}

/// Read a string body from `i` (just after the opening quote) up to and
/// over the closing quote, decoding escapes.
pub open spec fn parse_str_body(s: Seq<char>, i: int) -> Option<(Seq<char>, int)>
    decreases s.len() - i,
{
    if i < 0 || i >= s.len() {
        None
    } else if s[i] == '"' {
        Some((Seq::empty(), i + 1))
    } else if s[i] == '\\' {
        if i + 1 >= s.len() {
            None
        } else {
            match unescape_char(s[i + 1]) {
                None => None,
                Some(d) => match parse_str_body(s, i + 2) {
                    None => None,
                    Some((rest, j)) => Some((seq![d] + rest, j)),
                },
            }
        }
    } else {
        match parse_str_body(s, i + 1) {
            None => None,
            Some((rest, j)) => Some((seq![s[i]] + rest, j)),
        }
    }
}

/// Require the verbatim characters `lit` at `i`.
pub open spec fn expect_lit(s: Seq<char>, i: int, lit: Seq<char>) -> Option<int> {
    if 0 <= i && i + lit.len() <= s.len() && s.subrange(i, i + lit.len() as int) == lit {
        Some(i + lit.len() as int)
    } else {
        None
    }
}

/// Read one `"key":"value"` pair with the given fixed key, whitespace
/// allowed around the colon.
pub open spec fn parse_kv(s: Seq<char>, i: int, key: Seq<char>) -> Option<(Seq<char>, int)> {
    match expect_lit(s, skip_ws(s, i), seq!['"'] + key + seq!['"']) {
        None => None,
        Some(j) => match expect_lit(s, skip_ws(s, j), seq![':']) {
            None => None,
            Some(j1) => match expect_lit(s, skip_ws(s, j1), seq!['"']) {
                None => None,
                Some(j2) => parse_str_body(s, j2),
            },
        },
    }
}

/// A fixed key as it stands in the document. The keys hold no escapable
/// character, so they stand verbatim between their quotes.
pub open spec fn quoted_key(k: Seq<char>) -> Seq<char> {
    seq!['"'] + k + seq!['"']
}

/// Which of the four field keys stands at `i` (after whitespace): 1 for
/// md5, 2 for binary_path, 3 for source_file, 4 for timestamp, 0 for none
/// of them. At most one can match, since the keys differ pairwise in
/// their first character.
pub open spec fn field_key_tag(s: Seq<char>, i: int) -> int {
    let i0 = skip_ws(s, i);
    if expect_lit(s, i0, quoted_key(key_md5())) is Some {
        1
    } else if expect_lit(s, i0, quoted_key(key_binary_path())) is Some {
        2
    } else if expect_lit(s, i0, quoted_key(key_source_file())) is Some {
        3
    } else if expect_lit(s, i0, quoted_key(key_timestamp())) is Some {
        4
    } else {
        0
    }
}

/// The key behind a tag.
pub open spec fn key_of_tag(t: int) -> Seq<char> {
    if t == 1 {
        key_md5()
    } else if t == 2 {
        key_binary_path()
    } else if t == 3 {
        key_source_file()
    } else {
        key_timestamp()
    }
}

/// Read one field of an entry object, whichever of the four keys it
/// carries: its tag and its value.
pub open spec fn parse_field(s: Seq<char>, i: int) -> Option<((int, Seq<char>), int)> {
    let t = field_key_tag(s, i);
    if t == 0 {
        None
    } else {
        match parse_kv(s, i, key_of_tag(t)) {
            None => None,
            Some((v, j)) => Some(((t, v), j)),
        }
    }
}

/// The value among four tagged fields that carries the wanted tag.
pub open spec fn field_value(
    want: int,
    t1: int,
    v1: Seq<char>,
    t2: int,
    v2: Seq<char>,
    t3: int,
    v3: Seq<char>,
    t4: int,
    v4: Seq<char>,
) -> Seq<char> {
    if t1 == want {
        v1
    } else if t2 == want {
        v2
    } else if t3 == want {
        v3
    } else {
        v4
    }
}

/// The entry assembled from four tagged fields, provided the four keys
/// each appear exactly once.
pub open spec fn build_entry(
    t1: int,
    v1: Seq<char>,
    t2: int,
    v2: Seq<char>,
    t3: int,
    v3: Seq<char>,
    t4: int,
    v4: Seq<char>,
) -> Option<EntryView> {
    if t1 != t2 && t1 != t3 && t1 != t4 && t2 != t3 && t2 != t4 && t3 != t4 {
        Some(
            EntryView {
                md5: field_value(1, t1, v1, t2, v2, t3, v3, t4, v4),
                binary_path: field_value(2, t1, v1, t2, v2, t3, v3, t4, v4),
                source_file: field_value(3, t1, v1, t2, v2, t3, v3, t4, v4),
                timestamp: field_value(4, t1, v1, t2, v2, t3, v3, t4, v4),
            },
        )
    } else {
        None
    }
}

/// Read the object recorded under a digest key: its four fields, in any
/// order, each exactly once.
pub open spec fn parse_obj(s: Seq<char>, i: int) -> Option<(EntryView, int)> {
    match expect_lit(s, skip_ws(s, i), seq!['{']) {
        None => None,
        Some(j0) => match parse_field(s, j0) {
            None => None,
            Some(((t1, v1), j1)) => match expect_lit(s, skip_ws(s, j1), seq![',']) {
                None => None,
                Some(j1c) => match parse_field(s, j1c) {
                    None => None,
                    Some(((t2, v2), j2)) => match expect_lit(s, skip_ws(s, j2), seq![',']) {
                        None => None,
                        Some(j2c) => match parse_field(s, j2c) {
                            None => None,
                            Some(((t3, v3), j3)) => match expect_lit(s, skip_ws(s, j3), seq![',']) {
                                None => None,
                                Some(j3c) => match parse_field(s, j3c) {
                                    None => None,
                                    Some(((t4, v4), j4)) => match expect_lit(
                                        s,
                                        skip_ws(s, j4),
                                        seq!['}'],
                                    ) {
                                        None => None,
                                        Some(j5) => match build_entry(t1, v1, t2, v2, t3, v3, t4, v4) {
                                            None => None,
                                            Some(e) => Some((e, j5)),
                                        },
                                    },
                                },
                            },
                        },
                    },
                },
            },
        },
    }
}

/// Read one member: a digest key and its object, whose `md5` field must
/// equal the key.
pub open spec fn parse_member(s: Seq<char>, i: int) -> Option<(EntryView, int)> {
    match expect_lit(s, skip_ws(s, i), seq!['"']) {
        None => None,
        Some(j) => match parse_str_body(s, j) {
            None => None,
            Some((key, j1)) => match expect_lit(s, skip_ws(s, j1), seq![':']) {
                None => None,
                Some(j2) => match parse_obj(s, j2) {
                    None => None,
                    Some((e, j3)) => if key == e.md5 {
                        Some((e, j3))
                    } else {
                        None
                    },
                },
            },
        },
    }
}

/// Read one or more comma-separated members.
pub open spec fn parse_members(s: Seq<char>, i: int) -> Option<(Seq<EntryView>, int)>
    decreases s.len() - i,
{
    match parse_member(s, i) {
        None => None,
        Some((e, j)) => {
            let j2 = skip_ws(s, j);
            if 0 <= j2 < s.len() && s[j2] == ',' {
                if i < j2 {
                    match parse_members(s, j2 + 1) {
                        None => None,
                        Some((rest, k)) => Some((seq![e] + rest, k)),
                    }
                } else {
                    None
                }
            } else {
                Some((seq![e], j2))
            }
        },
    }
}

/// Read a whole document: `{}`, or `{` members `}`, with nothing but
/// whitespace after.
pub open spec fn parse_doc(s: Seq<char>) -> Option<Seq<EntryView>> {
    let i0 = skip_ws(s, 0);
    if !(0 <= i0 < s.len() && s[i0] == '{') {
        None
    } else {
        let i1 = skip_ws(s, i0 + 1);
        if 0 <= i1 < s.len() && s[i1] == '}' {
            if skip_ws(s, i1 + 1) == s.len() {
                Some(Seq::empty())
            } else {
                None
            }
        } else {
            match parse_members(s, i0 + 1) {
                None => None,
                Some((entries, j)) => if 0 <= j < s.len() && s[j] == '}' && skip_ws(s, j + 1)
                    == s.len() {
                    Some(entries)
                } else {
                    None
                },
            }
        }
    }
}

/// The index denoted by a document: its entries, provided no digest key
/// appears twice.
pub open spec fn doc_value(s: Seq<char>) -> Option<Seq<EntryView>> {
    match parse_doc(s) {
        None => None,
        Some(entries) => if distinct_keys(entries) {
            Some(entries)
        } else {
            None
        },
    }
}

// ---------------------------------------------------------------------------
// Round trip: parsing the canonical document of an index gives the index
// back. Each lemma reads one grammatical piece at the position where the
// serializer put it.
// ---------------------------------------------------------------------------
/// A piece `b` standing at offset `off` inside a piece `a` that stands at
/// position `i` of `s` also stands at position `i + off` of `s`.
proof fn lemma_sub_seg(s: Seq<char>, i: int, a: Seq<char>, off: int, b: Seq<char>)
    requires
        0 <= i,
        0 <= off,
        off + b.len() <= a.len(),
        i + a.len() <= s.len(),
        s.subrange(i, i + a.len() as int) == a,
        a.subrange(off, off + b.len() as int) == b,
    ensures
        s.subrange(i + off, i + off + b.len() as int) == b,
{
    assert forall|k: int| 0 <= k < b.len() implies s.subrange(
        i + off,
        i + off + b.len() as int,
    )[k] == b[k] by {
        assert(s.subrange(i + off, i + off + b.len() as int)[k] == s[i + off + k]);
        assert(s.subrange(i, i + a.len() as int)[off + k] == s[i + off + k]);
        assert(a.subrange(off, off + b.len() as int)[k] == a[off + k]);
    }
    assert(s.subrange(i + off, i + off + b.len() as int) =~= b);
}

/// The character of `s` at offset `off` inside a piece `a` standing at `i`.
proof fn lemma_sub_char(s: Seq<char>, i: int, a: Seq<char>, off: int)
    requires
        0 <= i,
        0 <= off < a.len(),
        i + a.len() <= s.len(),
        s.subrange(i, i + a.len() as int) == a,
    ensures
        s[i + off] == a[off],
{
    assert(s.subrange(i, i + a.len() as int)[off] == s[i + off]);
}

/// Reading a string body over the escape of `v` followed by a closing
/// quote decodes `v` and stops after the quote.
proof fn lemma_parse_esc(s: Seq<char>, i: int, v: Seq<char>)
    requires
        0 <= i,
        i + esc(v).len() + 1 <= s.len(),
        s.subrange(i, i + esc(v).len() as int) == esc(v),
        s[i + esc(v).len()] == '"',
    ensures
        parse_str_body(s, i) == Some((v, i + esc(v).len() + 1)),
    decreases v.len(),
{
    let ev = esc(v);
    let el = ev.len() as int;
    if v.len() == 0 {
        assert(ev == Seq::<char>::empty());
        assert(s[i] == '"');
    } else {
        let c = v[0];
        let v2 = v.subrange(1, v.len() as int);
        assert(ev == esc_char(c) + esc(v2));
        let ec = esc_char(c).len() as int;
        let e2 = esc(v2).len() as int;
        assert(el == ec + e2);
        assert(s.subrange(i + ec, i + ec + e2) == esc(v2)) by {
            assert(ev.subrange(ec, ec + e2) =~= esc(v2));
            lemma_sub_seg(s, i, ev, ec, esc(v2));
        }
        assert(s[i + ec + e2] == '"');
        lemma_parse_esc(s, i + ec, v2);
        if c == '"' || c == '\\' {
            assert(esc_char(c) =~= seq!['\\', c]);
            lemma_sub_char(s, i, ev, 0);
            lemma_sub_char(s, i, ev, 1);
            assert(s[i] == '\\');
            assert(s[i + 1] == c);
            assert(unescape_char(c) == Some(c));
            assert(parse_str_body(s, i) == Some((seq![c] + v2, i + el + 1)));
        } else {
            assert(esc_char(c) =~= seq![c]);
            lemma_sub_char(s, i, ev, 0);
            assert(s[i] == c);
            assert(parse_str_body(s, i) == Some((seq![c] + v2, i + el + 1)));
        }
        assert(seq![c] + v2 =~= v);
    }
}

/// Reading a key-value pair over its canonical rendering yields the value.
proof fn lemma_parse_kv_here(s: Seq<char>, i: int, key: Seq<char>, v: Seq<char>)
    requires
        0 <= i,
        i + ser_kv(key, v).len() <= s.len(),
        s.subrange(i, i + ser_kv(key, v).len() as int) == ser_kv(key, v),
    ensures
        parse_kv(s, i, key) == Some((v, i + ser_kv(key, v).len())),
{
    let a = ser_kv(key, v);
    let pre = seq!['"'] + key + seq!['"'];
    let pl = pre.len() as int;
    assert(a =~= pre + seq![':', '"'] + esc(v) + seq!['"']);
    lemma_sub_char(s, i, a, 0);
    assert(s[i] == '"');
    assert(skip_ws(s, i) == i);
    assert(a.subrange(0, pl) =~= pre);
    lemma_sub_seg(s, i, a, 0, pre);
    assert(expect_lit(s, i, pre) == Some(i + pl));
    lemma_sub_char(s, i, a, pl);
    assert(s[i + pl] == ':');
    assert(skip_ws(s, i + pl) == i + pl);
    assert(s.subrange(i + pl, i + pl + 1) =~= seq![':']) by {
        assert(s.subrange(i + pl, i + pl + 1)[0] == s[i + pl]);
    }
    assert(expect_lit(s, i + pl, seq![':']) == Some(i + pl + 1));
    lemma_sub_char(s, i, a, pl + 1);
    assert(s[i + pl + 1] == '"');
    assert(skip_ws(s, i + pl + 1) == i + pl + 1);
    assert(s.subrange(i + pl + 1, i + pl + 2) =~= seq!['"']) by {
        assert(s.subrange(i + pl + 1, i + pl + 2)[0] == s[i + pl + 1]);
    }
    assert(expect_lit(s, i + pl + 1, seq!['"']) == Some(i + pl + 2));
    assert(a.subrange(pl + 2, pl + 2 + esc(v).len() as int) =~= esc(v));
    lemma_sub_seg(s, i, a, pl + 2, esc(v));
    lemma_sub_char(s, i, a, a.len() - 1);
    assert(s[i + pl + 2 + esc(v).len()] == '"');
    lemma_parse_esc(s, i + pl + 2, v);
}

/// Reading a field over the canonical rendering of the key with tag `t`
/// yields that tag and the value: the matching key is recognised, and no
/// key tried before it can match, since the keys differ pairwise in their
/// first character.
proof fn lemma_parse_field_here(s: Seq<char>, i: int, t: int, v: Seq<char>)
    requires
        1 <= t <= 4,
        0 <= i,
        i + ser_kv(key_of_tag(t), v).len() <= s.len(),
        s.subrange(i, i + ser_kv(key_of_tag(t), v).len() as int) == ser_kv(key_of_tag(t), v),
    ensures
        parse_field(s, i) == Some(((t, v), i + ser_kv(key_of_tag(t), v).len())),
{
    let key = key_of_tag(t);
    let a = ser_kv(key, v);
    let qk = quoted_key(key);
    let ql = qk.len() as int;
    reveal_strlit("md5");
    reveal_strlit("binary_path");
    reveal_strlit("source_file");
    reveal_strlit("timestamp");
    lemma_sub_char(s, i, a, 0);
    assert(s[i] == '"');
    assert(skip_ws(s, i) == i);
    lemma_sub_char(s, i, a, 1);
    assert(s[i + 1] == key[0]);
    assert(a.subrange(0, ql) =~= qk);
    lemma_sub_seg(s, i, a, 0, qk);
    assert(expect_lit(s, i, qk) == Some(i + ql));
    if t >= 2 {
        let w = quoted_key(key_md5());
        assert(expect_lit(s, i, w) is None) by {
            if 0 <= i && i + w.len() <= s.len() && s.subrange(i, i + w.len() as int) == w {
                assert(s.subrange(i, i + w.len() as int)[1] == s[i + 1]);
                assert(w[1] == key_md5()[0]);
            }
        }
    }
    if t >= 3 {
        let w = quoted_key(key_binary_path());
        assert(expect_lit(s, i, w) is None) by {
            if 0 <= i && i + w.len() <= s.len() && s.subrange(i, i + w.len() as int) == w {
                assert(s.subrange(i, i + w.len() as int)[1] == s[i + 1]);
                assert(w[1] == key_binary_path()[0]);
            }
        }
    }
    if t == 4 {
        let w = quoted_key(key_source_file());
        assert(expect_lit(s, i, w) is None) by {
            if 0 <= i && i + w.len() <= s.len() && s.subrange(i, i + w.len() as int) == w {
                assert(s.subrange(i, i + w.len() as int)[1] == s[i + 1]);
                assert(w[1] == key_source_file()[0]);
            }
        }
    }
    assert(field_key_tag(s, i) == t);
    lemma_parse_kv_here(s, i, key, v);
}

/// Reading an entry object over its canonical rendering yields the entry.
proof fn lemma_parse_obj_here(s: Seq<char>, i: int, e: EntryView)
    requires
        0 <= i,
        i + ser_obj(e).len() <= s.len(),
        s.subrange(i, i + ser_obj(e).len() as int) == ser_obj(e),
    ensures
        parse_obj(s, i) == Some((e, i + ser_obj(e).len())),
{
    let a = ser_obj(e);
    let k1 = ser_kv(key_md5(), e.md5);
    let k2 = ser_kv(key_binary_path(), e.binary_path);
    let k3 = ser_kv(key_source_file(), e.source_file);
    let k4 = ser_kv(key_timestamp(), e.timestamp);
    let o1 = 1int;
    let o1c = o1 + k1.len() as int;
    let o2 = o1c + 1;
    let o2c = o2 + k2.len() as int;
    let o3 = o2c + 1;
    let o3c = o3 + k3.len() as int;
    let o4 = o3c + 1;
    let o4c = o4 + k4.len() as int;
    assert(a.len() == o4c + 1);
    lemma_sub_char(s, i, a, 0);
    assert(s[i] == '{');
    assert(skip_ws(s, i) == i);
    assert(s.subrange(i, i + 1) =~= seq!['{']) by {
        assert(s.subrange(i, i + 1)[0] == s[i]);
    }
    assert(expect_lit(s, i, seq!['{']) == Some(i + 1));
    assert(a.subrange(o1, o1c) =~= k1);
    lemma_sub_seg(s, i, a, o1, k1);
    assert(key_of_tag(1) == key_md5());
    lemma_parse_field_here(s, i + o1, 1, e.md5);
    lemma_sub_char(s, i, a, o1c);
    assert(s[i + o1c] == ',');
    assert(skip_ws(s, i + o1c) == i + o1c);
    assert(s.subrange(i + o1c, i + o1c + 1) =~= seq![',']) by {
        assert(s.subrange(i + o1c, i + o1c + 1)[0] == s[i + o1c]);
    }
    assert(expect_lit(s, i + o1c, seq![',']) == Some(i + o2));
    assert(a.subrange(o2, o2c) =~= k2);
    lemma_sub_seg(s, i, a, o2, k2);
    assert(key_of_tag(2) == key_binary_path());
    lemma_parse_field_here(s, i + o2, 2, e.binary_path);
    lemma_sub_char(s, i, a, o2c);
    assert(s[i + o2c] == ',');
    assert(skip_ws(s, i + o2c) == i + o2c);
    assert(s.subrange(i + o2c, i + o2c + 1) =~= seq![',']) by {
        assert(s.subrange(i + o2c, i + o2c + 1)[0] == s[i + o2c]);
    }
    assert(expect_lit(s, i + o2c, seq![',']) == Some(i + o3));
    assert(a.subrange(o3, o3c) =~= k3);
    lemma_sub_seg(s, i, a, o3, k3);
    assert(key_of_tag(3) == key_source_file());
    lemma_parse_field_here(s, i + o3, 3, e.source_file);
    lemma_sub_char(s, i, a, o3c);
    assert(s[i + o3c] == ',');
    assert(skip_ws(s, i + o3c) == i + o3c);
    assert(s.subrange(i + o3c, i + o3c + 1) =~= seq![',']) by {
        assert(s.subrange(i + o3c, i + o3c + 1)[0] == s[i + o3c]);
    }
    assert(expect_lit(s, i + o3c, seq![',']) == Some(i + o4));
    assert(a.subrange(o4, o4c) =~= k4);
    lemma_sub_seg(s, i, a, o4, k4);
    assert(key_of_tag(4) == key_timestamp());
    lemma_parse_field_here(s, i + o4, 4, e.timestamp);
    lemma_sub_char(s, i, a, o4c);
    assert(s[i + o4c] == '}');
    assert(skip_ws(s, i + o4c) == i + o4c);
    assert(s.subrange(i + o4c, i + o4c + 1) =~= seq!['}']) by {
        assert(s.subrange(i + o4c, i + o4c + 1)[0] == s[i + o4c]);
    }
    assert(expect_lit(s, i + o4c, seq!['}']) == Some(i + a.len() as int));
    assert(build_entry(1, e.md5, 2, e.binary_path, 3, e.source_file, 4, e.timestamp) == Some(
        EntryView {
            md5: e.md5,
            binary_path: e.binary_path,
            source_file: e.source_file,
            timestamp: e.timestamp,
        },
    ));
    assert(EntryView {
        md5: e.md5,
        binary_path: e.binary_path,
        source_file: e.source_file,
        timestamp: e.timestamp,
    } == e);
}

/// Reading a member over its canonical rendering yields the entry.
proof fn lemma_parse_member_here(s: Seq<char>, i: int, e: EntryView)
    requires
        0 <= i,
        i + ser_member(e).len() <= s.len(),
        s.subrange(i, i + ser_member(e).len() as int) == ser_member(e),
    ensures
        parse_member(s, i) == Some((e, i + ser_member(e).len())),
{
    let a = ser_member(e);
    let q = quoted(e.md5);
    let ql = q.len() as int;
    assert(a == q + seq![':'] + ser_obj(e));
    lemma_sub_char(s, i, a, 0);
    assert(a[0] == '"');
    assert(skip_ws(s, i) == i);
    assert(s.subrange(i, i + 1) =~= seq!['"']) by {
        assert(s.subrange(i, i + 1)[0] == s[i]);
    }
    assert(expect_lit(s, i, seq!['"']) == Some(i + 1));
    assert(s.subrange(i + 1, i + 1 + esc(e.md5).len() as int) == esc(e.md5)) by {
        assert(a.subrange(1, 1 + esc(e.md5).len() as int) =~= esc(e.md5));
        lemma_sub_seg(s, i, a, 1, esc(e.md5));
    }
    lemma_sub_char(s, i, a, ql - 1);
    assert(s[i + 1 + esc(e.md5).len()] == '"');
    lemma_parse_esc(s, i + 1, e.md5);
    lemma_sub_char(s, i, a, ql);
    assert(s[i + ql] == ':');
    assert(skip_ws(s, i + ql) == i + ql);
    assert(s.subrange(i + ql, i + ql + 1) =~= seq![':']) by {
        assert(s.subrange(i + ql, i + ql + 1)[0] == s[i + ql]);
    }
    assert(expect_lit(s, i + ql, seq![':']) == Some(i + ql + 1));
    assert(a.subrange(ql + 1, a.len() as int) =~= ser_obj(e));
    lemma_sub_seg(s, i, a, ql + 1, ser_obj(e));
    lemma_parse_obj_here(s, i + ql + 1, e);
}

/// Reading members over the canonical rendering of `entries[idx..]`, with
/// the closing brace right after, yields those entries.
proof fn lemma_parse_members_here(s: Seq<char>, i: int, entries: Seq<EntryView>, idx: int)
    requires
        0 <= idx < entries.len(),
        0 <= i,
        i + ser_members_from(entries, idx).len() + 1 <= s.len(),
        s.subrange(i, i + ser_members_from(entries, idx).len() as int) == ser_members_from(
            entries,
            idx,
        ),
        s[i + ser_members_from(entries, idx).len()] == '}',
    ensures
        parse_members(s, i) == Some(
            (entries.subrange(idx, entries.len() as int), i + ser_members_from(
                entries,
                idx,
            ).len()),
        ),
    decreases entries.len() - idx,
{
    let m = ser_members_from(entries, idx);
    let e = entries[idx];
    let a = ser_member(e);
    let al = a.len() as int;
    if idx == entries.len() - 1 {
        assert(m == a);
        lemma_parse_member_here(s, i, e);
        let j = i + al;
        assert(s[j] == '}');
        assert(skip_ws(s, j) == j);
        assert(parse_members(s, i) == Some((seq![e], j)));
        assert(seq![e] =~= entries.subrange(idx, entries.len() as int));
    } else {
        let m2 = ser_members_from(entries, idx + 1);
        assert(m == a + seq![','] + m2);
        assert(m.subrange(0, al) =~= a);
        lemma_sub_seg(s, i, m, 0, a);
        lemma_parse_member_here(s, i, e);
        let j = i + al;
        lemma_sub_char(s, i, m, al);
        assert(s[j] == ',');
        assert(skip_ws(s, j) == j);
        assert(m.subrange(al + 1, m.len() as int) =~= m2);
        lemma_sub_seg(s, i, m, al + 1, m2);
        assert(s[j + 1 + m2.len()] == '}');
        lemma_parse_members_here(s, j + 1, entries, idx + 1);
        assert(seq![e] + entries.subrange(idx + 1, entries.len() as int) =~= entries.subrange(
            idx,
            entries.len() as int,
        ));
        assert(al >= 1);
        assert(parse_members(s, i) == Some(
            (entries.subrange(idx, entries.len() as int), i + m.len()),
        ));
    }
}

/// Law (round trip): parsing the canonical document written for an index
/// yields exactly that index back — the same digests, each mapped to an
/// entry with the same field values.
pub proof fn lemma_save_load_round_trip(entries: Seq<EntryView>)
    requires
        distinct_keys(entries),
    ensures
        doc_value(ser_doc(entries)) == Some(entries),
{
    let s = ser_doc(entries);
    if entries.len() == 0 {
        assert(ser_members_from(entries, 0) == Seq::<char>::empty());
        assert(s =~= seq!['{', '}']);
        assert(s[0] == '{' && s[1] == '}');
        assert(skip_ws(s, 0) == 0);
        assert(skip_ws(s, 1) == 1);
        assert(skip_ws(s, 2) == 2);
        assert(parse_doc(s) == Some(Seq::<EntryView>::empty()));
        assert(Seq::<EntryView>::empty() =~= entries);
    } else {
        let m = ser_members_from(entries, 0);
        assert(s == seq!['{'] + m + seq!['}']);
        assert(m.len() >= 1) by {
            assert(ser_member(entries[0]).len() >= 1);
        }
        assert(s[0] == '{');
        assert(skip_ws(s, 0) == 0);
        assert(m[0] == '"') by {
            assert(ser_member(entries[0])[0] == quoted(entries[0].md5)[0]);
            assert(quoted(entries[0].md5)[0] == '"');
        }
        assert(s[1] == m[0]);
        assert(skip_ws(s, 1) == 1);
        assert(s.subrange(1, 1 + m.len() as int) =~= m);
        assert(s[1 + m.len() as int] == '}');
        lemma_parse_members_here(s, 1, entries, 0);
        assert(entries.subrange(0, entries.len() as int) =~= entries);
        assert(skip_ws(s, s.len() as int) == s.len() as int);
        assert(parse_doc(s) == Some(entries));
    }
}

fn unescape_exec(c: char) -> (r: Option<&'static str>)
    ensures
        match r {
            Some(t) => t@.len() == 1 && unescape_char(c) == Some(t@[0]),
            None => unescape_char(c) is None,
        },
{
    if c == '"' {
        proof {
            reveal_strlit("\"");
        }
        Some("\"")
    } else if c == '\\' {
        proof {
            reveal_strlit("\\");
        }
        Some("\\")
    } else if c == '/' {
        proof {
            reveal_strlit("/");
        }
        Some("/")
    } else if c == 'n' {
        proof {
            reveal_strlit("\n");
        }
        Some("\n")
    } else if c == 't' {
        proof {
            reveal_strlit("\t");
        }
        Some("\t")
    } else if c == 'r' {
        proof {
            reveal_strlit("\r");
        }
        Some("\r")
    } else if c == 'b' {
        proof {
            reveal_strlit("\u{8}");
        }
        Some("\u{8}")
    } else if c == 'f' {
        proof {
            reveal_strlit("\u{c}");
        }
        Some("\u{c}")
    } else {
        None
    }
}

fn is_ws_exec(c: char) -> (r: bool)
    ensures
        r == is_ws(c),
{
    c == ' ' || c == '\n' || c == '\t' || c == '\r'
}

#[verifier::loop_isolation(false)]
fn p_skip_ws(s: &str, n: usize, i: usize) -> (r: usize)
    requires
        n == s@.len(),
        i <= n,
    ensures
        i <= r <= n,
        r as int == skip_ws(s@, i as int),
{
    let mut j = i;
    while j < n && is_ws_exec(s.get_char(j))
        invariant
            i <= j <= n,
            skip_ws(s@, i as int) == skip_ws(s@, j as int),
        decreases n - j,
    {
        proof {
            assert(skip_ws(s@, j as int) == skip_ws(s@, j + 1));
        }
        j += 1;
    }
    proof {
        assert(skip_ws(s@, j as int) == j as int);
    }
    j
}

fn p_expect(s: &str, n: usize, i: usize, lit: &str) -> (r: Option<usize>)
    requires
        n == s@.len(),
        i <= n,
    ensures
        match r {
            Some(j) => i <= j <= n && j - i == lit@.len() && expect_lit(s@, i as int, lit@)
                == Some(j as int),
            None => expect_lit(s@, i as int, lit@) is None,
        },
{
    let l = lit.unicode_len();
    if l > n - i {
        return None;
    }
    if strutil::matches_at(s, lit, i) {
        Some(i + l)
    } else {
        None
    }
}

fn p_str_body(s: &str, n: usize, i: usize) -> (r: Option<(String, usize)>)
    requires
        n == s@.len(),
        i <= n,
    ensures
        match r {
            Some((v, j)) => i < j <= n && parse_str_body(s@, i as int) == Some((v@, j as int)),
            None => parse_str_body(s@, i as int) is None,
        },
    decreases n - i,
{
    if i >= n {
        return None;
    }
    let c = s.get_char(i);
    if c == '"' {
        Some((String::new(), i + 1))
    } else if c == '\\' {
        if i + 1 >= n {
            return None;
        }
        let d = s.get_char(i + 1);
        match unescape_exec(d) {
            None => None,
            Some(t) => {
                match p_str_body(s, n, i + 2) {
                    None => None,
                    Some((rest, j)) => {
                        let combined = t.to_owned().concat(rest.as_str());
                        proof {
                            assert(combined@ =~= seq![t@[0]] + rest@);
                        }
                        Some((combined, j))
                    },
                }
            },
        }
    } else {
        match p_str_body(s, n, i + 1) {
            None => None,
            Some((rest, j)) => {
                let piece = s.substring_char(i, i + 1);
                let combined = piece.to_owned().concat(rest.as_str());
                proof {
                    assert(combined@ =~= seq![s@[i as int]] + rest@);
                }
                Some((combined, j))
            },
        }
    }
}

fn p_kv(s: &str, n: usize, i: usize, lit: &str, Ghost(key): Ghost<Seq<char>>) -> (r: Option<
    (String, usize),
>)
    requires
        n == s@.len(),
        i <= n,
        lit@ == seq!['"'] + key + seq!['"'],
    ensures
        match r {
            Some((v, j)) => i < j <= n && parse_kv(s@, i as int, key) == Some((v@, j as int)),
            None => parse_kv(s@, i as int, key) is None,
        },
{
    proof {
        reveal_strlit(":");
        reveal_strlit("\"");
        assert(":"@ =~= seq![':']);
        assert("\""@ =~= seq!['"']);
    }
    let i0 = p_skip_ws(s, n, i);
    let j = match p_expect(s, n, i0, lit) {
        None => return None,
        Some(j) => j,
    };
    let j1s = p_skip_ws(s, n, j);
    let j1 = match p_expect(s, n, j1s, ":") {
        None => return None,
        Some(j) => j,
    };
    let j2s = p_skip_ws(s, n, j1);
    let j2 = match p_expect(s, n, j2s, "\"") {
        None => return None,
        Some(j) => j,
    };
    p_str_body(s, n, j2)
}

fn field_value_exec(
    want: u8,
    t1: u8,
    v1: &String,
    t2: u8,
    v2: &String,
    t3: u8,
    v3: &String,
    t4: u8,
    v4: &String,
) -> (r: String)
    ensures
        r@ == field_value(
            want as int,
            t1 as int,
            v1@,
            t2 as int,
            v2@,
            t3 as int,
            v3@,
            t4 as int,
            v4@,
        ),
{
    if t1 == want {
        v1.clone()
    } else if t2 == want {
        v2.clone()
    } else if t3 == want {
        v3.clone()
    } else {
        v4.clone()
    }
}

fn p_field(s: &str, n: usize, i: usize) -> (r: Option<((u8, String), usize)>)
    requires
        n == s@.len(),
        i <= n,
    ensures
        match r {
            Some(((t, v), j)) => i < j <= n && parse_field(s@, i as int) == Some(
                ((t as int, v@), j as int),
            ),
            None => parse_field(s@, i as int) is None,
        },
{
    proof {
        reveal_strlit("md5");
        reveal_strlit("\"md5\"");
        reveal_strlit("binary_path");
        reveal_strlit("\"binary_path\"");
        reveal_strlit("source_file");
        reveal_strlit("\"source_file\"");
        reveal_strlit("timestamp");
        reveal_strlit("\"timestamp\"");
        assert("\"md5\""@ =~= quoted_key(key_md5()));
        assert("\"binary_path\""@ =~= quoted_key(key_binary_path()));
        assert("\"source_file\""@ =~= quoted_key(key_source_file()));
        assert("\"timestamp\""@ =~= quoted_key(key_timestamp()));
    }
    let i0 = p_skip_ws(s, n, i);
    if p_expect(s, n, i0, "\"md5\"").is_some() {
        match p_kv(s, n, i, "\"md5\"", Ghost(key_md5())) {
            None => None,
            Some((v, j)) => Some(((1u8, v), j)),
        }
    } else if p_expect(s, n, i0, "\"binary_path\"").is_some() {
        match p_kv(s, n, i, "\"binary_path\"", Ghost(key_binary_path())) {
            None => None,
            Some((v, j)) => Some(((2u8, v), j)),
        }
    } else if p_expect(s, n, i0, "\"source_file\"").is_some() {
        match p_kv(s, n, i, "\"source_file\"", Ghost(key_source_file())) {
            None => None,
            Some((v, j)) => Some(((3u8, v), j)),
        }
    } else if p_expect(s, n, i0, "\"timestamp\"").is_some() {
        match p_kv(s, n, i, "\"timestamp\"", Ghost(key_timestamp())) {
            None => None,
            Some((v, j)) => Some(((4u8, v), j)),
        }
    } else {
        None
    }
}

fn p_obj(s: &str, n: usize, i: usize) -> (r: Option<(MetadataEntry, usize)>)
    requires
        n == s@.len(),
        i <= n,
    ensures
        match r {
            Some((e, j)) => i < j <= n && parse_obj(s@, i as int) == Some((e@, j as int)),
            None => parse_obj(s@, i as int) is None,
        },
{
    proof {
        reveal_strlit("{");
        reveal_strlit("}");
        reveal_strlit(",");
        assert("{"@ =~= seq!['{']);
        assert("}"@ =~= seq!['}']);
        assert(","@ =~= seq![',']);
    }
    let i0 = p_skip_ws(s, n, i);
    let j0 = match p_expect(s, n, i0, "{") {
        None => return None,
        Some(j) => j,
    };
    let ((t1, v1), j1) = match p_field(s, n, j0) {
        None => return None,
        Some(p) => p,
    };
    let j1s = p_skip_ws(s, n, j1);
    let j1c = match p_expect(s, n, j1s, ",") {
        None => return None,
        Some(j) => j,
    };
    let ((t2, v2), j2) = match p_field(s, n, j1c) {
        None => return None,
        Some(p) => p,
    };
    let j2s = p_skip_ws(s, n, j2);
    let j2c = match p_expect(s, n, j2s, ",") {
        None => return None,
        Some(j) => j,
    };
    let ((t3, v3), j3) = match p_field(s, n, j2c) {
        None => return None,
        Some(p) => p,
    };
    let j3s = p_skip_ws(s, n, j3);
    let j3c = match p_expect(s, n, j3s, ",") {
        None => return None,
        Some(j) => j,
    };
    let ((t4, v4), j4) = match p_field(s, n, j3c) {
        None => return None,
        Some(p) => p,
    };
    let j4s = p_skip_ws(s, n, j4);
    let j5 = match p_expect(s, n, j4s, "}") {
        None => return None,
        Some(j) => j,
    };
    if t1 != t2 && t1 != t3 && t1 != t4 && t2 != t3 && t2 != t4 && t3 != t4 {
        let e = MetadataEntry {
            md5: field_value_exec(1, t1, &v1, t2, &v2, t3, &v3, t4, &v4),
            binary_path: field_value_exec(2, t1, &v1, t2, &v2, t3, &v3, t4, &v4),
            source_file: field_value_exec(3, t1, &v1, t2, &v2, t3, &v3, t4, &v4),
            timestamp: field_value_exec(4, t1, &v1, t2, &v2, t3, &v3, t4, &v4),
        };
        Some((e, j5))
    } else {
        None
    }
}

fn p_member(s: &str, n: usize, i: usize) -> (r: Option<(MetadataEntry, usize)>)
    requires
        n == s@.len(),
        i <= n,
    ensures
        match r {
            Some((e, j)) => i < j <= n && parse_member(s@, i as int) == Some((e@, j as int)),
            None => parse_member(s@, i as int) is None,
        },
{
    proof {
        reveal_strlit("\"");
        reveal_strlit(":");
        assert("\""@ =~= seq!['"']);
        assert(":"@ =~= seq![':']);
    }
    let i0 = p_skip_ws(s, n, i);
    let j = match p_expect(s, n, i0, "\"") {
        None => return None,
        Some(j) => j,
    };
    let (key, j1) = match p_str_body(s, n, j) {
        None => return None,
        Some(p) => p,
    };
    let j1s = p_skip_ws(s, n, j1);
    let j2 = match p_expect(s, n, j1s, ":") {
        None => return None,
        Some(j) => j,
    };
    let (e, j3) = match p_obj(s, n, j2) {
        None => return None,
        Some(p) => p,
    };
    if strutil::str_eq(key.as_str(), e.md5.as_str()) {
        Some((e, j3))
    } else {
        None
    }
}

fn p_members(s: &str, n: usize, i: usize) -> (r: Option<(Vec<MetadataEntry>, usize)>)
    requires
        n == s@.len(),
        i <= n,
    ensures
        match r {
            Some((es, j)) => i < j <= n && parse_members(s@, i as int) == Some(
                (es@.map_values(|e: MetadataEntry| e@), j as int),
            ),
            None => parse_members(s@, i as int) is None,
        },
    decreases n - i,
{
    let (e, j) = match p_member(s, n, i) {
        None => return None,
        Some(p) => p,
    };
    let j2 = p_skip_ws(s, n, j);
    if j2 < n && s.get_char(j2) == ',' {
        match p_members(s, n, j2 + 1) {
            None => None,
            Some((rest, k)) => {
                let mut v: Vec<MetadataEntry> = Vec::new();
                v.push(e);
                let ghost rest_view = rest@;
                let mut tail = rest;
                v.append(&mut tail);
                proof {
                    assert(v@.map_values(|en: MetadataEntry| en@) =~= seq![e@]
                        + rest_view.map_values(|en: MetadataEntry| en@));
                }
                Some((v, k))
            },
        }
    } else {
        let mut v: Vec<MetadataEntry> = Vec::new();
        v.push(e);
        proof {
            assert(v@.map_values(|en: MetadataEntry| en@) =~= seq![e@]);
        }
        Some((v, j2))
    }
}

#[verifier::loop_isolation(false)]
fn all_distinct(es: &Vec<MetadataEntry>) -> (r: bool)
    ensures
        r == distinct_keys(es@.map_values(|e: MetadataEntry| e@)),
{
    let ghost v = es@.map_values(|e: MetadataEntry| e@);
    let n = es.len();
    let mut i: usize = 0;
    while i < n
        invariant
            n == es@.len(),
            0 <= i <= n,
            forall|p: int, q: int|
                0 <= p < q < n && p < i ==> (#[trigger] v[p]).md5 != (#[trigger] v[q]).md5,
        decreases n - i,
    {
        let mut j: usize = i + 1;
        while j < n
            invariant
                i < j <= n,
                forall|q: int| i < q < j ==> v[i as int].md5 != (#[trigger] v[q]).md5,
            decreases n - j,
        {
            if strutil::str_eq(es[i].md5.as_str(), es[j].md5.as_str()) {
                proof {
                    assert(v[i as int] == es@[i as int]@);
                    assert(v[j as int] == es@[j as int]@);
                    assert(v[i as int].md5 == v[j as int].md5);
                }
                return false;
            }
            j += 1;
        }
        i += 1;
    }
    true
}

fn parse_error() -> (r: BitcacheError)
    ensures
        r is ParseError,
{
    BitcacheError::ParseError(String::from_str("malformed metadata document"))
}

/// Parse a metadata document. Returns the index it denotes, or a
/// `ParseError` when the text does not fit the schema — whitespace between
/// tokens and any order of an entry's four fields are accepted — or when a
/// member's key differs from its `md5` field, a field repeats, or a digest
/// appears twice.
pub fn parse_metadata(content: &str) -> (r: Result<Metadata, BitcacheError>)
    ensures
        match r {
            Ok(m) => doc_value(content@) == Some(m@) && m.wf(),
            Err(e) => doc_value(content@) is None && e is ParseError,
        },
{
    let n = content.unicode_len();
    let i0 = p_skip_ws(content, n, 0);
    if i0 >= n || content.get_char(i0) != '{' {
        return Err(parse_error());
    }
    let i1 = p_skip_ws(content, n, i0 + 1);
    if i1 < n && content.get_char(i1) == '}' {
        if p_skip_ws(content, n, i1 + 1) == n {
            let m = Metadata::new();
            return Ok(m);
        } else {
            return Err(parse_error());
        }
    }
    match p_members(content, n, i0 + 1) {
        None => Err(parse_error()),
        Some((es, j)) => {
            if j < n && content.get_char(j) == '}' && p_skip_ws(content, n, j + 1) == n {
                if all_distinct(&es) {
                    let m = Metadata::from_entries(es);
                    Ok(m)
                } else {
                    Err(parse_error())
                }
            } else {
                Err(parse_error())
            }
        },
    }
}

} // verus!
