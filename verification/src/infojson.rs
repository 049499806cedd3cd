//! The metadata blob stored beside a peer record: a one-field JSON-style
//! object holding the last-seen IP string, written as `{"ip":"..."}` with
//! quotes and backslashes escaped and every other character verbatim.
//! Reading is total: anything that is not exactly in this shape yields the
//! default (empty) IP, so a damaged row never fails a lookup.

use vstd::prelude::*;

verus! {

/// One escaped character: quote and backslash get a backslash prefix.
pub open spec fn esc_char(c: char) -> Seq<char> {
    if c == '"' || c == '\\' {
        seq!['\\', c]
    } else {
        seq![c]
    }
}

/// The escaped form of a string, character by character.
pub open spec fn json_escape(s: Seq<char>) -> Seq<char>
    decreases s.len(),
{
    if s.len() == 0 {
        Seq::empty()
    } else {
        esc_char(s[0]) + json_escape(s.drop_first())
    }
}

/// The seven characters every metadata blob starts with.
pub open spec fn info_prefix() -> Seq<char> {
    seq!['{', '"', 'i', 'p', '"', ':', '"']
}

/// The whole blob for a given IP string.
pub open spec fn json_of_ip(ip: Seq<char>) -> Seq<char> {
    info_prefix() + json_escape(ip) + seq!['"', '}']
}

/// Reads an escaped string body up to its closing quote; yields the
/// unescaped content and whatever follows the quote, or nothing if the
/// body is malformed or unterminated.
pub open spec fn unescape_body(s: Seq<char>) -> Option<(Seq<char>, Seq<char>)>
    decreases s.len(),
{
    if s.len() == 0 {
        None
    } else if s[0] == '"' {
        Some((Seq::empty(), s.drop_first()))
    } else if s[0] == '\\' {
        if s.len() >= 2 && (s[1] == '"' || s[1] == '\\') {
            match unescape_body(s.skip(2)) {
                Some(p) => Some((seq![s[1]] + p.0, p.1)),
                None => None,
            }
        } else {
            None
        }
    } else {
        match unescape_body(s.drop_first()) {
            Some(p) => Some((seq![s[0]] + p.0, p.1)),
            None => None,
        }
    }
}

/// The IP a stored metadata blob yields: the string between the quotes
/// when the blob has exactly the written shape, and empty otherwise.
pub open spec fn parse_info(s: Seq<char>) -> Seq<char> {
    if s.len() >= 7 && s.take(7) == info_prefix() {
        match unescape_body(s.skip(7)) {
            Some(p) => if p.1 =~= seq!['}'] {
                p.0
            } else {
                Seq::empty()
            },
            None => Seq::empty(),
        }
    } else {
        Seq::empty()
    }
}

/// Escaping distributes over concatenation.
proof fn lemma_escape_app(a: Seq<char>, b: Seq<char>)
    ensures
        json_escape(a + b) == json_escape(a) + json_escape(b),
    decreases a.len(),
{
    if a.len() == 0 {
        assert(a + b =~= b);
        assert(json_escape(a) + json_escape(b) =~= json_escape(b));
    } else {
        lemma_escape_app(a.drop_first(), b);
        assert((a + b).drop_first() =~= a.drop_first() + b);
        assert(esc_char(a[0]) + (json_escape(a.drop_first()) + json_escape(b)) =~= (esc_char(a[0])
            + json_escape(a.drop_first())) + json_escape(b));
    }
}

/// Unescaping inverts escaping, whatever trails the closing quote.
proof fn lemma_unescape_escape(ip: Seq<char>, rest: Seq<char>)
    ensures
        unescape_body(json_escape(ip) + seq!['"'] + rest) == Some((ip, rest)),
    decreases ip.len(),
{
    let s = json_escape(ip) + seq!['"'] + rest;
    if ip.len() == 0 {
        assert(s[0] == '"');
        assert(s.drop_first() =~= rest);
        assert(ip =~= Seq::<char>::empty());
    } else {
        lemma_unescape_escape(ip.drop_first(), rest);
        let t = json_escape(ip.drop_first()) + seq!['"'] + rest;
        assert(json_escape(ip) =~= esc_char(ip[0]) + json_escape(ip.drop_first()));
        if ip[0] == '"' || ip[0] == '\\' {
            assert(s[0] == '\\' && s[1] == ip[0]);
            assert(s.len() >= 2);
            assert(s.skip(2) =~= t);
            assert(seq![s[1]] + ip.drop_first() =~= ip);
        } else {
            assert(s[0] == ip[0]);
            assert(s[0] != '"' && s[0] != '\\');
            assert(s.drop_first() =~= t);
            assert(seq![s[0]] + ip.drop_first() =~= ip);
        }
    }
}

/// Round trip: the blob written for an IP reads back as that IP.
pub proof fn lemma_info_round_trip(ip: Seq<char>)
    ensures
        parse_info(json_of_ip(ip)) == ip,
{
    let s = json_of_ip(ip);
    assert(s.take(7) =~= info_prefix());
    assert(s.skip(7) =~= json_escape(ip) + seq!['"'] + seq!['}']);
    lemma_unescape_escape(ip, seq!['}']);
}

/// Relies on `String::push` from std: appends exactly one character.
#[verifier::external_body]
fn push_char(s: &mut String, c: char)
    ensures
        final(s)@ == old(s)@.push(c),
{
    s.push(c);
}

/// Writes the metadata blob for an IP string.
pub fn info_to_json(ip: &String) -> (r: String)
    ensures
        r@ == json_of_ip(ip@),
{
    let mut out: String = "{\"ip\":\"".to_owned();
    proof {
        reveal_strlit("{\"ip\":\"");
        assert(out@ =~= info_prefix());
    }
    let n = ip.as_str().unicode_len();
    let mut i: usize = 0;
    while i < n
        invariant
            n == ip@.len(),
            i <= n,
            out@ == info_prefix() + json_escape(ip@.take(i as int)),
        decreases n - i,
    {
        let c = ip.as_str().get_char(i);
        if c == '"' || c == '\\' {
            push_char(&mut out, '\\');
        }
        push_char(&mut out, c);
        proof {
            assert(ip@.take(i + 1) =~= ip@.take(i as int) + seq![ip@[i as int]]);
            lemma_escape_app(ip@.take(i as int), seq![ip@[i as int]]);
            assert(seq![ip@[i as int]].drop_first() =~= Seq::<char>::empty());
            assert(json_escape(seq![ip@[i as int]]) =~= esc_char(ip@[i as int]) + json_escape(
                Seq::<char>::empty(),
            ));
            assert(esc_char(ip@[i as int]) + Seq::<char>::empty() =~= esc_char(ip@[i as int]));
            if c == '"' || c == '\\' {
                assert(out@ =~= info_prefix() + json_escape(ip@.take(i + 1)));
            } else {
                assert(out@ =~= info_prefix() + json_escape(ip@.take(i + 1)));
            }
        }
        i += 1;
    }
    push_char(&mut out, '"');
    push_char(&mut out, '}');
    proof {
        assert(ip@.take(n as int) =~= ip@);
        assert(out@ =~= json_of_ip(ip@));
    }
    out
}

/// Prepends already-unescaped content to a body-reading result.
pub open spec fn prepend_body(acc: Seq<char>, o: Option<(Seq<char>, Seq<char>)>) -> Option<
    (Seq<char>, Seq<char>),
> {
    match o {
        Some(p) => Some((acc + p.0, p.1)),
        None => None,
    }
}

/// What the parsing loop maintains: reading the body from position `i`
/// with `acc` already unescaped tells the same story as reading it from
/// the top of the blob.
spec fn unescape_rel(s: Seq<char>, i: int, acc: Seq<char>) -> bool {
    &&& 7 <= i <= s.len()
    &&& unescape_body(s.skip(7)) == prepend_body(acc, unescape_body(s.skip(i)))
}

proof fn lemma_rel_init(s: Seq<char>)
    requires
        s.len() >= 7,
    ensures
        unescape_rel(s, 7, Seq::<char>::empty()),
{
    match unescape_body(s.skip(7)) {
        Some(p) => {
            assert(Seq::<char>::empty() + p.0 =~= p.0);
        },
        None => {},
    }
}

proof fn lemma_rel_none(s: Seq<char>, i: int, acc: Seq<char>)
    requires
        unescape_rel(s, i, acc),
        i == s.len(),
        s.take(7) == info_prefix(),
    ensures
        parse_info(s) == Seq::<char>::empty(),
{
    assert(s.skip(i) =~= Seq::<char>::empty());
    assert(unescape_body(s.skip(i)) is None);
}

proof fn lemma_rel_close(s: Seq<char>, i: int, acc: Seq<char>)
    requires
        unescape_rel(s, i, acc),
        i < s.len(),
        s[i] == '"',
        i + 2 == s.len(),
        s[i + 1] == '}',
        s.take(7) == info_prefix(),
    ensures
        parse_info(s) == acc,
{
    let t = s.skip(i);
    assert(t[0] == '"');
    assert(unescape_body(t) == Some::<(Seq<char>, Seq<char>)>((Seq::empty(), t.drop_first())));
    assert(t.drop_first() =~= seq!['}']);
    assert(acc + Seq::<char>::empty() =~= acc);
    assert(s.len() >= 7);
}

proof fn lemma_rel_close_bad(s: Seq<char>, i: int, acc: Seq<char>)
    requires
        unescape_rel(s, i, acc),
        i < s.len(),
        s[i] == '"',
        !(i + 2 == s.len() && s[i + 1] == '}'),
        s.take(7) == info_prefix(),
    ensures
        parse_info(s) == Seq::<char>::empty(),
{
    let t = s.skip(i);
    assert(t[0] == '"');
    assert(unescape_body(t) == Some::<(Seq<char>, Seq<char>)>((Seq::empty(), t.drop_first())));
    let r = t.drop_first();
    assert(r =~= s.skip(i + 1));
    if r.len() == 1 && r[0] == '}' {
        assert(i + 2 == s.len());
        assert(s[i + 1] == r[0]);
        assert(false);
    }
    assert(!(r =~= seq!['}']));
}

proof fn lemma_rel_step_plain(s: Seq<char>, i: int, acc: Seq<char>)
    requires
        unescape_rel(s, i, acc),
        i < s.len(),
        s[i] != '"',
        s[i] != '\\',
    ensures
        unescape_rel(s, i + 1, acc.push(s[i])),
{
    let t = s.skip(i);
    assert(t[0] == s[i]);
    assert(t.drop_first() =~= s.skip(i + 1));
    match unescape_body(s.skip(i + 1)) {
        Some(p) => {
            assert(unescape_body(t) == Some::<(Seq<char>, Seq<char>)>((seq![t[0]] + p.0, p.1)));
            assert(acc + (seq![t[0]] + p.0) =~= acc.push(s[i]) + p.0);
        },
        None => {
            assert(unescape_body(t) is None);
        },
    }
}

proof fn lemma_rel_step_escaped(s: Seq<char>, i: int, acc: Seq<char>)
    requires
        unescape_rel(s, i, acc),
        i + 1 < s.len(),
        s[i] == '\\',
        s[i + 1] == '"' || s[i + 1] == '\\',
    ensures
        unescape_rel(s, i + 2, acc.push(s[i + 1])),
{
    let t = s.skip(i);
    assert(t[0] == s[i]);
    assert(t.len() >= 2);
    assert(t[1] == s[i + 1]);
    assert(t.skip(2) =~= s.skip(i + 2));
    match unescape_body(s.skip(i + 2)) {
        Some(p) => {
            assert(unescape_body(t) == Some::<(Seq<char>, Seq<char>)>((seq![t[1]] + p.0, p.1)));
            assert(acc + (seq![t[1]] + p.0) =~= acc.push(s[i + 1]) + p.0);
        },
        None => {
            assert(unescape_body(t) is None);
        },
    }
}

proof fn lemma_rel_bad_escape(s: Seq<char>, i: int, acc: Seq<char>)
    requires
        unescape_rel(s, i, acc),
        i < s.len(),
        s[i] == '\\',
        !(i + 1 < s.len() && (s[i + 1] == '"' || s[i + 1] == '\\')),
        s.take(7) == info_prefix(),
    ensures
        parse_info(s) == Seq::<char>::empty(),
{
    let t = s.skip(i);
    assert(t[0] == '\\');
    if t.len() >= 2 {
        assert(t[1] == s[i + 1]);
        assert(!(t[1] == '"' || t[1] == '\\'));
    }
    assert(unescape_body(t) is None);
}

/// Reads the IP out of a stored metadata blob; anything malformed
/// yields the empty default.
pub fn info_ip_from_json(s: &String) -> (r: String)
    ensures
        r@ == parse_info(s@),
{
    let sv = s.as_str();
    let n = sv.unicode_len();
    let empty = String::new();
    if n < 9 {
        proof {
            if s@.len() >= 7 && s@.take(7) == info_prefix() {
                lemma_body_needs_two(s@.skip(7));
            }
        }
        return empty;
    }
    if !(sv.get_char(0) == '{' && sv.get_char(1) == '"' && sv.get_char(2) == 'i' && sv.get_char(3)
        == 'p' && sv.get_char(4) == '"' && sv.get_char(5) == ':' && sv.get_char(6) == '"') {
        proof {
            if s@.take(7) == info_prefix() {
                assert(forall|j: int| 0 <= j < 7 ==> s@.take(7)[j] == s@[j]);
                assert(s@[0] == '{' && s@[1] == '"' && s@[2] == 'i' && s@[3] == 'p' && s@[4] == '"'
                    && s@[5] == ':' && s@[6] == '"');
            }
        }
        return empty;
    }
    proof {
        assert(s@.take(7) =~= info_prefix());
        lemma_rel_init(s@);
    }
    let mut out = String::new();
    let mut i: usize = 7;
    loop
        invariant
            7 <= i <= n,
            sv@ == s@,
            n == s@.len(),
            n >= 9,
            s@.take(7) == info_prefix(),
            unescape_rel(s@, i as int, out@),
        decreases n - i,
    {
        if i >= n {
            proof {
                lemma_rel_none(s@, i as int, out@);
            }
            return String::new();
        }
        let c = sv.get_char(i);
        if c == '"' {
            // closing quote: the rest must be exactly the closing brace
            if n - i == 2 && sv.get_char(i + 1) == '}' {
                proof {
                    lemma_rel_close(s@, i as int, out@);
                }
                return out;
            } else {
                proof {
                    lemma_rel_close_bad(s@, i as int, out@);
                }
                return String::new();
            }
        } else if c == '\\' {
            if n - i >= 2 {
                let d = sv.get_char(i + 1);
                if d == '"' || d == '\\' {
                    proof {
                        lemma_rel_step_escaped(s@, i as int, out@);
                    }
                    push_char(&mut out, d);
                    i += 2;
                } else {
                    proof {
                        lemma_rel_bad_escape(s@, i as int, out@);
                    }
                    return String::new();
                }
            } else {
                proof {
                    lemma_rel_bad_escape(s@, i as int, out@);
                }
                return String::new();
            }
        } else {
            proof {
                lemma_rel_step_plain(s@, i as int, out@);
            }
            push_char(&mut out, c);
            i += 1;
        }
    }
}

/// A well-formed body region needs at least a closing quote and brace.
proof fn lemma_body_needs_two(t: Seq<char>)
    requires
        t.len() < 2,
    ensures
        match unescape_body(t) {
            Some(p) => !(p.1 =~= seq!['}']),
            None => true,
        },
{
    reveal_with_fuel(unescape_body, 3);
    if t.len() == 1 {
        if t[0] == '"' {
            assert(t.drop_first() =~= Seq::<char>::empty());
        } else if t[0] != '\\' {
            assert(t.drop_first() =~= Seq::<char>::empty());
        }
    }
}

} // verus!
