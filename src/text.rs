//! Character-level helpers: Unicode white space, trimming, white-space
//! collapsing, decimal rendering and a cheap fingerprint of text.

use vstd::prelude::*;

verus! {

/// The Unicode `White_Space` property: the characters that `char::is_whitespace`,
/// `str::trim` and `str::split_whitespace` treat as white space.
pub open spec fn is_white_space(c: char) -> bool {
    let u = c as u32;
    ||| 0x09 <= u <= 0x0D
    ||| u == 0x20
    ||| u == 0x85
    ||| u == 0xA0
    ||| u == 0x1680
    ||| 0x2000 <= u <= 0x200A
    ||| u == 0x2028
    ||| u == 0x2029
    ||| u == 0x202F
    ||| u == 0x205F
    ||| u == 0x3000
}

/// `s` without its leading white space.
pub open spec fn trim_start_ws(s: Seq<char>) -> Seq<char>
    decreases s.len(),
{
    if s.len() > 0 && is_white_space(s[0]) {
        trim_start_ws(s.drop_first())
    } else {
        s
    }
}

/// `s` without its trailing white space.
pub open spec fn trim_end_ws(s: Seq<char>) -> Seq<char>
    decreases s.len(),
{
    if s.len() > 0 && is_white_space(s.last()) {
        trim_end_ws(s.drop_last())
    } else {
        s
    }
}

/// `s` without leading and trailing white space.
pub open spec fn trim_ws(s: Seq<char>) -> Seq<char> {
    trim_end_ws(trim_start_ws(s))
}

proof fn lemma_trim_start_shape(s: Seq<char>)
    ensures
        trim_start_ws(s).len() == 0 || !is_white_space(trim_start_ws(s)[0]),
    decreases s.len(),
{
    if s.len() > 0 && is_white_space(s[0]) {
        lemma_trim_start_shape(s.drop_first());
    }
}

proof fn lemma_trim_end_shape(s: Seq<char>)
    ensures
        trim_end_ws(s).len() <= s.len(),
        trim_end_ws(s) == s.take(trim_end_ws(s).len() as int),
        trim_end_ws(s).len() == 0 || !is_white_space(trim_end_ws(s).last()),
        s.len() > 0 && !is_white_space(s[0]) ==> trim_end_ws(s).len() > 0,
    decreases s.len(),
{
    if s.len() > 0 && is_white_space(s.last()) {
        let p = s.drop_last();
        lemma_trim_end_shape(p);
        let t = trim_end_ws(p);
        assert(s.take(t.len() as int) == p.take(t.len() as int));
        if s.len() > 1 && !is_white_space(s[0]) {
            assert(p[0] == s[0]);
        }
    } else {
        assert(s.take(s.len() as int) == s);
    }
}

/// Trimming twice trims no more than trimming once.
pub proof fn lemma_trim_idempotent(s: Seq<char>)
    ensures
        trim_ws(trim_ws(s)) == trim_ws(s),
{
    let y = trim_start_ws(s);
    let t = trim_end_ws(y);
    lemma_trim_start_shape(s);
    lemma_trim_end_shape(y);
    if t.len() > 0 {
        assert(t[0] == y[0]);
    }
    assert(trim_start_ws(t) == t);
    assert(trim_end_ws(t) == t);
}

/// Whether `c` has the `White_Space` property.
pub fn char_is_whitespace(c: char) -> (r: bool)
    ensures
        r == is_white_space(c),
{
    let u = c as u32;
    (0x09 <= u && u <= 0x0D) || u == 0x20 || u == 0x85 || u == 0xA0 || u == 0x1680 || (0x2000
        <= u && u <= 0x200A) || u == 0x2028 || u == 0x2029 || u == 0x202F || u == 0x205F || u
        == 0x3000
}

/// Relies on `str::trim`: the slice without leading and trailing `White_Space`.
#[verifier::external_body]
pub(crate) fn trim_str<'a>(s: &'a str) -> (r: &'a str)
    ensures
        r@ == trim_ws(s@),
{
    s.trim()
}

/// Relies on `String::push`: appends one character.
#[verifier::external_body]
pub(crate) fn push_char(s: &mut String, c: char)
    ensures
        final(s)@ == old(s)@.push(c),
{
    s.push(c)
}

/// The words of `s`: its maximal runs of non-white characters, in order. A white
/// character belongs to no word; a non-white character extends the word of the
/// character before it, or starts a new word when there is none.
pub open spec fn words(s: Seq<char>) -> Seq<Seq<char>>
    decreases s.len(),
{
    if s.len() == 0 {
        Seq::empty()
    } else {
        let w = words(s.drop_last());
        let c = s.last();
        if is_white_space(c) {
            w
        } else if s.len() >= 2 && !is_white_space(s[s.len() - 2]) {
            w.drop_last().push(w.last().push(c))
        } else {
            w.push(seq![c])
        }
    }
}

/// `s` with its words joined by single spaces: leading and trailing white space
/// dropped, every inner run of white space replaced by one space.
pub open spec fn collapse_ws(s: Seq<char>) -> Seq<char> {
    join_with(words(s), seq![' '])
}

proof fn lemma_join_push(ws: Seq<Seq<char>>, sep: Seq<char>, x: Seq<char>)
    ensures
        join_with(ws.push(x), sep) == if ws.len() == 0 {
            x
        } else {
            join_with(ws, sep) + sep + x
        },
{
    assert(ws.push(x).drop_last() =~= ws);
    if ws.len() == 0 {
        assert(ws.push(x)[0] == x);
    }
}

proof fn lemma_join_extend_last(ws: Seq<Seq<char>>, sep: Seq<char>, c: char)
    requires
        ws.len() > 0,
    ensures
        join_with(ws.drop_last().push(ws.last().push(c)), sep) == join_with(ws, sep).push(c),
{
    let p = ws.drop_last();
    lemma_join_push(p, sep, ws.last().push(c));
    if p.len() == 0 {
        assert(ws =~= seq![ws.last()]);
        assert(join_with(ws, sep) == ws[0]);
    } else {
        assert(ws.drop_last() == p);
        assert(join_with(ws, sep) == join_with(p, sep) + sep + ws.last());
        assert(join_with(p, sep) + sep + ws.last().push(c) =~= (join_with(p, sep) + sep
            + ws.last()).push(c));
    }
}

/// Collapses the white space of `s` as `collapse_ws` describes.
pub fn collapse_whitespace(s: &str) -> (r: String)
    ensures
        r@ == collapse_ws(s@),
{
    let mut out = String::new();
    let mut started = false;
    let mut in_word = false;
    for c in it: s.chars()
        invariant
            it.seq() == s@,
            out@ == collapse_ws(s@.take(it.index() as int)),
            started == (words(s@.take(it.index() as int)).len() > 0),
            in_word == (it.index() > 0 && !is_white_space(s@[it.index() - 1])),
    {
        let ghost i = it.index() as int;
        let ghost t = s@.take(i + 1);
        let ghost w = words(s@.take(i));
        proof {
            assert(t.drop_last() == s@.take(i));
            assert(t.last() == c);
            if i > 0 {
                assert(t[t.len() - 2] == s@[i - 1]);
                assert(s@.take(i).last() == s@[i - 1]);
            }
        }
        if char_is_whitespace(c) {
            in_word = false;
        } else {
            if in_word {
                proof {
                    assert(w.len() > 0);
                    lemma_join_extend_last(w, seq![' '], c);
                }
            } else {
                proof {
                    lemma_join_push(w, seq![' '], seq![c]);
                }
                if started {
                    push_char(&mut out, ' ');
                }
            }
            push_char(&mut out, c);
            proof {
                if !in_word && started {
                    assert(out@ =~= join_with(w, seq![' ']) + seq![' '] + seq![c]);
                }
                if !in_word && !started {
                    assert(out@ =~= seq![c]);
                }
            }
            started = true;
            in_word = true;
        }
    }
    proof {
        assert(s@.take(s@.len() as int) == s@);
    }
    out
}

/// Modulus of the text fingerprint: the largest prime below 2^32.
pub const FINGERPRINT_MODULUS: u64 = 4294967291;

/// A polynomial fingerprint of `s`: equal texts have equal fingerprints.
pub open spec fn fingerprint(s: Seq<char>) -> u64
    decreases s.len(),
{
    if s.len() == 0 {
        0
    } else {
        ((fingerprint(s.drop_last()) as nat * 31 + s.last() as u32 as nat)
            % FINGERPRINT_MODULUS as nat) as u64
    }
}

/// Computes `fingerprint(s@)`.
pub fn fingerprint_of(s: &str) -> (r: u64)
    ensures
        r == fingerprint(s@),
{
    let mut h: u64 = 0;
    for c in it: s.chars()
        invariant
            it.seq() == s@,
            h == fingerprint(s@.take(it.index() as int)),
            h < FINGERPRINT_MODULUS,
    {
        proof {
            assert(s@.take(it.index() + 1).drop_last() == s@.take(it.index() as int));
        }
        h = (h * 31 + c as u32 as u64) % FINGERPRINT_MODULUS;
    }
    proof {
        assert(s@.take(s@.len() as int) == s@);
    }
    h
}

/// The decimal digits, in order of value.
pub const DIGITS: [char; 10] = ['0', '1', '2', '3', '4', '5', '6', '7', '8', '9'];

/// The decimal representation of `n`, without sign or leading zeros.
pub open spec fn decimal(n: nat) -> Seq<char>
    decreases n,
{
    if n < 10 {
        seq![DIGITS@[n as int]]
    } else {
        decimal(n / 10).push(DIGITS@[(n % 10) as int])
    }
}

/// Appends the decimal representation of `n` to `out`.
pub fn push_decimal(out: &mut String, n: usize)
    ensures
        final(out)@ == old(out)@ + decimal(n as nat),
    decreases n,
{
    if n >= 10 {
        push_decimal(out, n / 10);
    }
    push_char(out, DIGITS[n % 10]);
    proof {
        assert(old(out)@ + decimal(n as nat) =~= if n < 10 {
            old(out)@.push(DIGITS@[n as int])
        } else {
            (old(out)@ + decimal((n / 10) as nat)).push(DIGITS@[(n % 10) as int])
        });
    }
}

/// The texts that are present among `parts`, in order.
pub open spec fn present(parts: Seq<Option<Seq<char>>>) -> Seq<Seq<char>>
    decreases parts.len(),
{
    if parts.len() == 0 {
        Seq::empty()
    } else {
        match parts.last() {
            Some(p) => present(parts.drop_last()).push(p),
            None => present(parts.drop_last()),
        }
    }
}

/// `texts` in order, with `sep` between neighbours.
pub open spec fn join_with(texts: Seq<Seq<char>>, sep: Seq<char>) -> Seq<char>
    decreases texts.len(),
{
    if texts.len() == 0 {
        Seq::empty()
    } else if texts.len() == 1 {
        texts[0]
    } else {
        join_with(texts.drop_last(), sep) + sep + texts.last()
    }
}

/// The view of an optional string.
pub open spec fn option_view(o: Option<String>) -> Option<Seq<char>> {
    match o {
        Some(s) => Some(s@),
        None => None,
    }
}

/// The views of optional strings.
pub open spec fn option_views(parts: Seq<Option<String>>) -> Seq<Option<Seq<char>>> {
    Seq::new(parts.len(), |i: int| option_view(parts[i]))
}

/// Joins the present texts among `parts` with `sep` between neighbours.
pub fn join_present(parts: &[Option<String>], sep: &str) -> (r: String)
    ensures
        r@ == join_with(present(option_views(parts@)), sep@),
{
    let ghost views = option_views(parts@);
    let mut out = String::new();
    let mut any = false;
    for i in 0..parts.len()
        invariant
            views == option_views(parts@),
            out@ == join_with(present(views.take(i as int)), sep@),
            any == (present(views.take(i as int)).len() > 0),
    {
        proof {
            assert(views.take(i + 1).drop_last() == views.take(i as int));
        }
        if let Some(p) = &parts[i] {
            if any {
                out.append(sep);
            }
            out.append(p.as_str());
            any = true;
            proof {
                let ps = present(views.take(i + 1));
                assert(ps.drop_last() == present(views.take(i as int)));
                if ps.len() == 1 {
                    assert(out@ =~= ps[0]);
                } else {
                    assert(out@ =~= join_with(ps.drop_last(), sep@) + sep@ + ps.last());
                }
            }
        }
    }
    proof {
        assert(views.take(parts.len() as int) == views);
    }
    out
}

/// The text before the first `sep` in `s`; all of `s` when it holds none.
pub open spec fn before_first(s: Seq<char>, sep: char) -> Seq<char>
    decreases s.len(),
{
    if s.len() == 0 {
        s
    } else if s.drop_last().contains(sep) {
        before_first(s.drop_last(), sep)
    } else if s.last() == sep {
        s.drop_last()
    } else {
        s
    }
}

/// The text of `s` before its first `sep`, and whether `s` holds `sep` at all.
pub fn split_at_first(s: &str, sep: char) -> (r: (String, bool))
    ensures
        r.0@ == before_first(s@, sep),
        r.1 == s@.contains(sep),
{
    let mut out = String::new();
    let mut found = false;
    for c in it: s.chars()
        invariant
            it.seq() == s@,
            out@ == before_first(s@.take(it.index() as int), sep),
            found == s@.take(it.index() as int).contains(sep),
    {
        let ghost i = it.index() as int;
        proof {
            let t = s@.take(i + 1);
            assert(t.drop_last() == s@.take(i));
            assert(t.last() == c);
            if t.contains(sep) && !s@.take(i).contains(sep) {
                let k = choose|k: int| 0 <= k < t.len() && t[k] == sep;
                if k < i {
                    assert(s@.take(i)[k] == sep);
                }
            }
            if s@.take(i).contains(sep) {
                let k = choose|k: int| 0 <= k < i && s@.take(i)[k] == sep;
                assert(t[k] == sep);
            }
            if c == sep {
                assert(t[i] == sep);
            }
        }
        if !found {
            if c == sep {
                found = true;
            } else {
                push_char(&mut out, c);
            }
        }
    }
    proof {
        assert(s@.take(s@.len() as int) == s@);
    }
    (out, found)
}

/// The text after the last `sep` in `s`; none when `s` holds no `sep`.
pub open spec fn after_last(s: Seq<char>, sep: char) -> Option<Seq<char>>
    decreases s.len(),
{
    if s.len() == 0 {
        None
    } else if s.last() == sep {
        Some(Seq::empty())
    } else {
        match after_last(s.drop_last(), sep) {
            Some(t) => Some(t.push(s.last())),
            None => None,
        }
    }
}

/// The text of `s` after its last `sep`, if it holds one.
pub fn split_after_last(s: &str, sep: char) -> (r: Option<String>)
    ensures
        option_view(r) == after_last(s@, sep),
{
    let mut tail: Option<String> = None;
    for c in it: s.chars()
        invariant
            it.seq() == s@,
            option_view(tail) == after_last(s@.take(it.index() as int), sep),
    {
        proof {
            assert(s@.take(it.index() + 1).drop_last() == s@.take(it.index() as int));
        }
        if c == sep {
            tail = Some(String::new());
        } else {
            match &mut tail {
                Some(t) => push_char(t, c),
                None => {},
            }
        }
    }
    proof {
        assert(s@.take(s@.len() as int) == s@);
    }
    tail
}

} // verus!
