//! The text format of the defaults cache: one `key = "value"` line per
//! field, values quoted, with `"` and `\` escaped by a backslash. Encoding
//! and decoding are specified at the level of character sequences, and the
//! two round-trip laws are proved below.

use vstd::prelude::*;
use vstd::string::StrSliceExecFns;
use vstd::string::StringExecFns;

verus! {

/// Relies on std's String::push, which appends the given character to
/// the end of the string; vstd gives it no specification of its own.
pub assume_specification[ String::push ](s: &mut String, ch: char)
    ensures
        final(s)@ == old(s)@.push(ch),
;

/// How a single character appears inside a quoted value.
pub open spec fn escape_char(c: char) -> Seq<char> {
    if c == '"' || c == '\\' {
        seq!['\\', c]
    } else {
        seq![c]
    }
}

/// How a whole value appears inside its quotes.
pub open spec fn escape(s: Seq<char>) -> Seq<char>
    decreases s.len(),
{
    if s.len() == 0 {
        Seq::empty()
    } else {
        escape_char(s[0]) + escape(s.drop_first())
    }
}

pub proof fn lemma_escape_push(s: Seq<char>, c: char)
    ensures
        escape(s.push(c)) == escape(s) + escape_char(c),
    decreases s.len(),
{
    if s.len() == 0 {
        assert(s.push(c)[0] == c);
        assert(s.push(c).drop_first() =~= Seq::<char>::empty());
        assert(escape(s.push(c)) == escape_char(c) + escape(s.push(c).drop_first()));
        assert(escape(s.push(c)) =~= escape_char(c));
        assert(escape(s) + escape_char(c) =~= escape_char(c));
    } else {
        assert(s.push(c)[0] == s[0]);
        assert(s.push(c).drop_first() =~= s.drop_first().push(c));
        lemma_escape_push(s.drop_first(), c);
        assert(escape(s.push(c)) == escape_char(s[0]) + (escape(s.drop_first()) + escape_char(c)));
        assert(escape(s) + escape_char(c) =~= escape_char(s[0]) + (escape(s.drop_first()) + escape_char(c)));
    }
}

/// True when `pat` occurs in `s` starting at position `i`.
pub open spec fn matches_at(s: Seq<char>, i: int, pat: Seq<char>) -> bool {
    0 <= i && i + pat.len() <= s.len() && s.subrange(i, i + pat.len()) == pat
}

/// Scans a quoted value from position `i` up to its closing quote,
/// undoing the escaping. Returns the value and the position just past
/// the closing quote, or `None` when no well-formed quoted value starts
/// at `i`.
pub open spec fn unescape_at(s: Seq<char>, i: int) -> Option<(Seq<char>, int)>
    decreases s.len() - i,
{
    if i < 0 || i >= s.len() {
        None
    } else if s[i] == '"' {
        Some((Seq::empty(), i + 1))
    } else if s[i] == '\\' {
        if i + 1 < s.len() && (s[i + 1] == '"' || s[i + 1] == '\\') {
            match unescape_at(s, i + 2) {
                Some(r) => Some((seq![s[i + 1]] + r.0, r.1)),
                None => None,
            }
        } else {
            None
        }
    } else {
        match unescape_at(s, i + 1) {
            Some(r) => Some((seq![s[i]] + r.0, r.1)),
            None => None,
        }
    }
}

/// Scanning recovers exactly the value whose escaped form sits between
/// position `i` and its closing quote, whatever follows that quote.
pub proof fn lemma_unescape_escape(s: Seq<char>, i: int, v: Seq<char>)
    requires
        0 <= i,
        i + escape(v).len() + 1 <= s.len(),
        s.subrange(i, i + escape(v).len() + 1) == escape(v) + seq!['"'],
    ensures
        unescape_at(s, i) == Some((v, i + escape(v).len() + 1)),
    decreases v.len(),
{
    let e = escape(v);
    let w = s.subrange(i, i + e.len() + 1);
    if v.len() == 0 {
        assert(w[0] == s[i]);
        assert(s[i] == '"');
        assert(v =~= Seq::<char>::empty());
    } else {
        let v2 = v.drop_first();
        let e2 = escape(v2);
        assert(e == escape_char(v[0]) + e2);
        let d = escape_char(v[0]).len();
        assert(w[0] == s[i]);
        assert(s.subrange(i + d, i + d + e2.len() + 1) =~= e2 + seq!['"']) by {
            assert forall|k: int| 0 <= k < e2.len() + 1 implies s.subrange(
                i + d,
                i + d + e2.len() + 1,
            )[k] == (e2 + seq!['"'])[k] by {
                assert(s.subrange(i + d, i + d + e2.len() + 1)[k] == s[i + d + k]);
                assert(s[i + d + k] == w[d + k]);
                assert(w[d + k] == (e + seq!['"'])[d + k]);
            }
        }
        lemma_unescape_escape(s, i + d, v2);
        if v[0] == '"' || v[0] == '\\' {
            assert(s[i] == '\\');
            assert(w[1] == s[i + 1]);
            assert(s[i + 1] == v[0]);
            assert(seq![s[i + 1]] + v2 =~= v);
        } else {
            assert(s[i] == v[0]);
            assert(seq![s[i]] + v2 =~= v);
        }
    }
}

/// Whatever the scan accepts is the escaped form of the value it
/// returns, closing quote included: the window it consumed reads back
/// as `escape(v)` followed by `"`.
pub proof fn lemma_unescape_sound(s: Seq<char>, i: int)
    requires
        unescape_at(s, i) is Some,
    ensures
        ({
            let r = unescape_at(s, i)->Some_0;
            &&& 0 <= i < r.1 <= s.len()
            &&& r.1 == i + escape(r.0).len() + 1
            &&& s.subrange(i, r.1) == escape(r.0) + seq!['"']
        }),
    decreases s.len() - i,
{
    let r = unescape_at(s, i)->Some_0;
    if s[i] == '"' {
        assert(s.subrange(i, i + 1) =~= escape(r.0) + seq!['"']);
    } else if s[i] == '\\' {
        lemma_unescape_sound(s, i + 2);
        let r2 = unescape_at(s, i + 2)->Some_0;
        assert(r.0 == seq![s[i + 1]] + r2.0);
        assert(r.0[0] == s[i + 1]);
        assert(r.0.drop_first() =~= r2.0);
        assert(escape(r.0) == escape_char(s[i + 1]) + escape(r2.0));
        assert(escape_char(s[i + 1]) =~= seq![s[i], s[i + 1]]);
        assert(s.subrange(i, r.1) =~= escape(r.0) + seq!['"']) by {
            assert forall|k: int| 0 <= k < r.1 - i implies s.subrange(i, r.1)[k] == (escape(r.0)
                + seq!['"'])[k] by {
                assert(s.subrange(i, r.1)[k] == s[i + k]);
                if k >= 2 {
                    assert(s.subrange(i + 2, r2.1)[k - 2] == s[i + k]);
                    assert(s.subrange(i + 2, r2.1)[k - 2] == (escape(r2.0) + seq!['"'])[k - 2]);
                }
            }
        }
    } else {
        lemma_unescape_sound(s, i + 1);
        let r2 = unescape_at(s, i + 1)->Some_0;
        assert(r.0 == seq![s[i]] + r2.0);
        assert(r.0[0] == s[i]);
        assert(r.0.drop_first() =~= r2.0);
        assert(escape(r.0) == escape_char(s[i]) + escape(r2.0));
        assert(escape_char(s[i]) =~= seq![s[i]]);
        assert(s.subrange(i, r.1) =~= escape(r.0) + seq!['"']) by {
            assert forall|k: int| 0 <= k < r.1 - i implies s.subrange(i, r.1)[k] == (escape(r.0)
                + seq!['"'])[k] by {
                assert(s.subrange(i, r.1)[k] == s[i + k]);
                if k >= 1 {
                    assert(s.subrange(i + 1, r2.1)[k - 1] == s[i + k]);
                    assert(s.subrange(i + 1, r2.1)[k - 1] == (escape(r2.0) + seq!['"'])[k - 1]);
                }
            }
        }
    }
}

/// The key of each cache line, opening quote included.
pub open spec fn key_type() -> Seq<char> {
    "commit_type = \""@
}

pub open spec fn key_project() -> Seq<char> {
    "commit_project = \""@
}

pub open spec fn key_message() -> Seq<char> {
    "commit_message = \""@
}

/// Closing quote and line terminator of each cache line.
pub open spec fn quote_nl() -> Seq<char> {
    seq!['"', '\n']
}

/// One full cache line: `key = "` + escaped value + `"` + newline.
pub open spec fn line(key: Seq<char>, v: Seq<char>) -> Seq<char> {
    key + escape(v) + quote_nl()
}

/// The full text of a stored defaults record.
pub open spec fn encoded(t: Seq<char>, p: Seq<char>, m: Seq<char>) -> Seq<char> {
    line(key_type(), t) + line(key_project(), p) + line(key_message(), m)
}

/// Parses one cache line at position `i`: the key, a quoted value, a
/// newline. Returns the value and the position past the newline.
pub open spec fn parse_line(s: Seq<char>, i: int, key: Seq<char>) -> Option<(Seq<char>, int)> {
    if matches_at(s, i, key) {
        match unescape_at(s, i + key.len()) {
            Some(r) => {
                if r.1 < s.len() && s[r.1] == '\n' {
                    Some((r.0, r.1 + 1))
                } else {
                    None
                }
            },
            None => None,
        }
    } else {
        None
    }
}

/// Parses a whole cache file: the three lines in their fixed order,
/// nothing before, between or after them.
pub open spec fn decode_spec(s: Seq<char>) -> Option<(Seq<char>, Seq<char>, Seq<char>)> {
    match parse_line(s, 0, key_type()) {
        Some(t) => match parse_line(s, t.1, key_project()) {
            Some(p) => match parse_line(s, p.1, key_message()) {
                Some(m) => {
                    if m.1 == s.len() {
                        Some((t.0, p.0, m.0))
                    } else {
                        None
                    }
                },
                None => None,
            },
            None => None,
        },
        None => None,
    }
}

/// A line parse succeeds on exactly the text that `line` produces, and
/// yields the encoded value.
pub proof fn lemma_parse_line_encode(s: Seq<char>, i: int, key: Seq<char>, v: Seq<char>)
    requires
        0 <= i,
        i + line(key, v).len() <= s.len(),
        s.subrange(i, i + line(key, v).len()) == line(key, v),
    ensures
        parse_line(s, i, key) == Some((v, i + line(key, v).len())),
{
    let l = line(key, v);
    let kl = key.len() as int;
    let e = escape(v);
    let w = s.subrange(i, i + l.len());
    assert(s.subrange(i, i + kl) =~= key) by {
        assert forall|k: int| 0 <= k < kl implies s.subrange(i, i + kl)[k] == key[k] by {
            assert(s.subrange(i, i + kl)[k] == s[i + k]);
            assert(s[i + k] == w[k]);
        }
    }
    assert(matches_at(s, i, key));
    assert(s.subrange(i + kl, i + kl + e.len() + 1) =~= e + seq!['"']) by {
        assert forall|k: int| 0 <= k < e.len() + 1 implies s.subrange(
            i + kl,
            i + kl + e.len() + 1,
        )[k] == (e + seq!['"'])[k] by {
            assert(s.subrange(i + kl, i + kl + e.len() + 1)[k] == s[i + kl + k]);
            assert(s[i + kl + k] == w[kl + k]);
            assert(w[kl + k] == (key + e + quote_nl())[kl + k]);
        }
    }
    lemma_unescape_escape(s, i + kl, v);
    let j = i + kl + e.len() + 1;
    assert(s[j] == w[kl + e.len() + 1]);
    assert(w[kl + e.len() + 1] == quote_nl()[1]);
    assert(s[j] == '\n');
}

/// A successful line parse consumed exactly one encoded line: the text
/// between `i` and the returned position reads back as `line(key, v)`.
pub proof fn lemma_parse_line_sound(s: Seq<char>, i: int, key: Seq<char>)
    requires
        parse_line(s, i, key) is Some,
    ensures
        ({
            let r = parse_line(s, i, key)->Some_0;
            &&& 0 <= i < r.1 <= s.len()
            &&& r.1 == i + line(key, r.0).len()
            &&& s.subrange(i, r.1) == line(key, r.0)
        }),
{
    let r = parse_line(s, i, key)->Some_0;
    let kl = key.len() as int;
    let e = escape(r.0);
    lemma_unescape_sound(s, i + kl);
    let u = unescape_at(s, i + kl)->Some_0;
    assert(u.0 == r.0);
    assert(r.1 == i + kl + e.len() + 2);
    assert(s.subrange(i, r.1) =~= line(key, r.0)) by {
        assert forall|k: int| 0 <= k < r.1 - i implies s.subrange(i, r.1)[k] == line(key, r.0)[k]
        by {
            assert(s.subrange(i, r.1)[k] == s[i + k]);
            assert(line(key, r.0)[k] == (key + e + quote_nl())[k]);
            if k < kl {
                assert(s.subrange(i, i + kl)[k] == s[i + k]);
            } else if k < kl + e.len() + 1 {
                assert(s.subrange(i + kl, u.1)[k - kl] == s[i + k]);
                assert(s.subrange(i + kl, u.1)[k - kl] == (e + seq!['"'])[k - kl]);
            } else {
                assert(k == kl + e.len() + 1);
                assert(s[i + k] == '\n');
            }
        }
    }
}

/// Round trip, store then load: decoding the stored text of a record
/// yields exactly the record that was stored.
pub proof fn lemma_decode_encode(t: Seq<char>, p: Seq<char>, m: Seq<char>)
    ensures
        decode_spec(encoded(t, p, m)) == Some((t, p, m)),
{
    let s = encoded(t, p, m);
    let l1 = line(key_type(), t);
    let l2 = line(key_project(), p);
    let l3 = line(key_message(), m);
    let n1 = l1.len() as int;
    let n2 = n1 + l2.len();
    let n3 = n2 + l3.len();
    assert(s.subrange(0, n1) =~= l1);
    assert(s.subrange(n1, n2) =~= l2);
    assert(s.subrange(n2, n3) =~= l3);
    lemma_parse_line_encode(s, 0, key_type(), t);
    lemma_parse_line_encode(s, n1, key_project(), p);
    lemma_parse_line_encode(s, n2, key_message(), m);
}

/// Round trip, load then store: any text that decodes at all is
/// byte-for-byte the stored form of the record it decodes to, so
/// re-storing a loaded record reproduces the cache file exactly.
pub proof fn lemma_encode_decode(s: Seq<char>)
    requires
        decode_spec(s) is Some,
    ensures
        ({
            let r = decode_spec(s)->Some_0;
            encoded(r.0, r.1, r.2) == s
        }),
{
    let rt = parse_line(s, 0, key_type())->Some_0;
    let rp = parse_line(s, rt.1, key_project())->Some_0;
    let rm = parse_line(s, rp.1, key_message())->Some_0;
    lemma_parse_line_sound(s, 0, key_type());
    lemma_parse_line_sound(s, rt.1, key_project());
    lemma_parse_line_sound(s, rp.1, key_message());
    assert(rm.1 == s.len());
    assert(encoded(rt.0, rp.0, rm.0) =~= s) by {
        assert forall|k: int| 0 <= k < s.len() implies encoded(rt.0, rp.0, rm.0)[k] == s[k] by {
            let l1 = line(key_type(), rt.0);
            let l2 = line(key_project(), rp.0);
            let l3 = line(key_message(), rm.0);
            if k < rt.1 {
                assert(s.subrange(0, rt.1)[k] == s[k]);
                assert(l1[k] == s[k]);
            } else if k < rp.1 {
                assert(s.subrange(rt.1, rp.1)[k - rt.1] == s[k]);
                assert(l2[k - rt.1] == s[k]);
            } else {
                assert(s.subrange(rp.1, rm.1)[k - rp.1] == s[k]);
                assert(l3[k - rp.1] == s[k]);
            }
        }
    }
}

/// Decides whether `pat` occurs in `s` at position `i`.
pub(crate) fn match_at(s: &str, i: usize, pat: &str) -> (r: bool)
    ensures
        r == matches_at(s@, i as int, pat@),
{
    let n = s.unicode_len();
    let m = pat.unicode_len();
    if i > n || m > n - i {
        return false;
    }
    let mut k: usize = 0;
    while k < m
        invariant
            k <= m,
            i + m <= n,
            n == s@.len(),
            m == pat@.len(),
            forall|q: int| 0 <= q < k ==> s@[i + q] == pat@[q],
        decreases m - k,
    {
        if s.get_char(i + k) != pat.get_char(k) {
            proof {
                assert(!matches_at(s@, i as int, pat@)) by {
                    if matches_at(s@, i as int, pat@) {
                        assert(s@.subrange(i as int, i + pat@.len())[k as int] == pat@[k as int]);
                    }
                }
            }
            return false;
        }
        k = k + 1;
    }
    proof {
        assert(s@.subrange(i as int, i + pat@.len()) =~= pat@);
    }
    true
}

/// Scans a quoted value starting at `start`, undoing the escaping;
/// mirrors `unescape_at` exactly.
pub(crate) fn unescape_from(s: &str, start: usize) -> (r: Option<(String, usize)>)
    requires
        start <= s@.len(),
    ensures
        match r {
            Some(p) => unescape_at(s@, start as int) == Some((p.0@, p.1 as int)) && p.1
                <= s@.len(),
            None => unescape_at(s@, start as int) is None,
        },
{
    let n = s.unicode_len();
    let mut i = start;
    let mut acc = String::new();
    proof {
        if unescape_at(s@, start as int) is Some {
            let q = unescape_at(s@, start as int)->Some_0;
            assert(Seq::<char>::empty() + q.0 =~= q.0);
        }
    }
    loop
        invariant
            i <= n,
            n == s@.len(),
            unescape_at(s@, start as int) == (match unescape_at(s@, i as int) {
                Some(q) => Some((acc@ + q.0, q.1)),
                None => None::<(Seq<char>, int)>,
            }),
        decreases n - i,
    {
        if i >= n {
            proof {
                assert(unescape_at(s@, i as int) is None);
            }
            return None;
        }
        let c = s.get_char(i);
        if c == '"' {
            proof {
                assert(acc@ + Seq::<char>::empty() =~= acc@);
            }
            return Some((acc, i + 1));
        } else if c == '\\' {
            if i + 1 >= n {
                return None;
            }
            let c2 = s.get_char(i + 1);
            if c2 == '"' || c2 == '\\' {
                let ghost acc0 = acc@;
                acc.push(c2);
                proof {
                    assert(acc@ =~= acc0 + seq![c2]);
                    if unescape_at(s@, i + 2) is Some {
                        let q = unescape_at(s@, i + 2)->Some_0;
                        assert((acc0 + seq![c2]) + q.0 =~= acc0 + (seq![c2] + q.0));
                    }
                }
                i = i + 2;
            } else {
                return None;
            }
        } else {
            let ghost acc0 = acc@;
            acc.push(c);
            proof {
                assert(acc@ =~= acc0 + seq![c]);
                if unescape_at(s@, i + 1) is Some {
                    let q = unescape_at(s@, i + 1)->Some_0;
                    assert((acc0 + seq![c]) + q.0 =~= acc0 + (seq![c] + q.0));
                }
            }
            i = i + 1;
        }
    }
}

/// Parses one cache line at position `i`; mirrors `parse_line` exactly.
pub(crate) fn parse_line_from(s: &str, i: usize, key: &str) -> (r: Option<(String, usize)>)
    ensures
        match r {
            Some(p) => parse_line(s@, i as int, key@) == Some((p.0@, p.1 as int)) && p.1
                <= s@.len(),
            None => parse_line(s@, i as int, key@) is None,
        },
{
    let n = s.unicode_len();
    if !match_at(s, i, key) {
        return None;
    }
    let kl = key.unicode_len();
    match unescape_from(s, i + kl) {
        None => None,
        Some((v, j)) => {
            if j < n && s.get_char(j) == '\n' {
                Some((v, j + 1))
            } else {
                None
            }
        },
    }
}

/// Parses the text of a cache file into its three values; succeeds on
/// exactly the texts that `decode_spec` accepts.
pub(crate) fn decode_text(s: &str) -> (r: Option<(String, String, String)>)
    ensures
        match r {
            Some(c) => decode_spec(s@) == Some((c.0@, c.1@, c.2@)),
            None => decode_spec(s@) is None,
        },
{
    let n = s.unicode_len();
    match parse_line_from(s, 0, "commit_type = \"") {
        None => None,
        Some((t, i1)) => match parse_line_from(s, i1, "commit_project = \"") {
            None => None,
            Some((p, i2)) => match parse_line_from(s, i2, "commit_message = \"") {
                None => None,
                Some((m, i3)) => {
                    if i3 == n {
                        Some((t, p, m))
                    } else {
                        None
                    }
                },
            },
        },
    }
}

/// Appends the escaped form of `v` to `out`.
fn append_escaped(out: &mut String, v: &str)
    ensures
        final(out)@ == old(out)@ + escape(v@),
{
    let n = v.unicode_len();
    let mut k: usize = 0;
    let ghost base = out@;
    proof {
        assert(v@.subrange(0, 0) =~= Seq::<char>::empty());
        assert(base + escape(v@.subrange(0, 0)) =~= base);
    }
    while k < n
        invariant
            k <= n,
            n == v@.len(),
            out@ == base + escape(v@.subrange(0, k as int)),
        decreases n - k,
    {
        let c = v.get_char(k);
        let ghost before = out@;
        if c == '"' || c == '\\' {
            out.push('\\');
        }
        out.push(c);
        proof {
            assert(v@.subrange(0, k + 1) =~= v@.subrange(0, k as int).push(v@[k as int]));
            lemma_escape_push(v@.subrange(0, k as int), v@[k as int]);
            if c == '"' || c == '\\' {
                assert(before.push('\\').push(c) =~= before + seq!['\\', c]);
            } else {
                assert(before.push(c) =~= before + seq![c]);
            }
        }
        k = k + 1;
    }
    proof {
        assert(v@.subrange(0, n as int) =~= v@);
    }
}

/// Builds the full cache-file text for the three values.
pub(crate) fn encode_text(t: &str, p: &str, m: &str) -> (r: String)
    ensures
        r@ == encoded(t@, p@, m@),
{
    let mut out = String::new();
    proof {
        reveal_strlit("\"\n");
        assert(("\"\n")@ =~= quote_nl());
    }
    out.append("commit_type = \"");
    append_escaped(&mut out, t);
    out.append("\"\n");
    out.append("commit_project = \"");
    append_escaped(&mut out, p);
    out.append("\"\n");
    out.append("commit_message = \"");
    append_escaped(&mut out, m);
    out.append("\"\n");
    proof {
        assert(out@ =~= encoded(t@, p@, m@));
    }
    out
}

} // verus!
