use vstd::prelude::*;
use vstd::string::{StrSliceExecFns, StringExecFns};

use crate::chars::{
    is_word, is_ws, nonws_end, scan_nonws, scan_word, word_char, word_end, ws_char,
};

verus! {

// Key/value extraction. The message text is scanned left to right for
// non-overlapping tokens `key=value`: the key is a non-empty run of word
// characters, the value is either a double-quoted span (which may contain
// whitespace but no further quote; the first quote after the opening one
// closes it) or a maximal non-empty run of non-whitespace characters. Quotes
// around a value are stripped. The details mapping keeps, for each key, the
// value of its last token in scan order; keys appear in the order in which
// they first occur.

/// The first position at or after `i` holding a double quote.
pub open spec fn quote_close(s: Seq<char>, i: int) -> Option<int>
    decreases s.len() - i,
{
    if i < 0 || i >= s.len() {
        None
    } else if s[i] == '"' {
        Some(i)
    } else {
        quote_close(s, i + 1)
    }
}

pub proof fn lemma_quote_close_found(s: Seq<char>, i: int, c: int)
    requires
        0 <= i <= c < s.len(),
        s[c] == '"',
        forall|q: int| i <= q < c ==> s[q] != '"',
    ensures
        quote_close(s, i) == Some(c),
    decreases c - i,
{
    if i < c {
        lemma_quote_close_found(s, i + 1, c);
    }
}

pub proof fn lemma_quote_close_none(s: Seq<char>, i: int)
    requires
        0 <= i,
        forall|q: int| i <= q < s.len() ==> s[q] != '"',
    ensures
        quote_close(s, i) == None::<int>,
    decreases s.len() - i,
{
    if i < s.len() {
        lemma_quote_close_none(s, i + 1);
    }
}

/// The `key=value` token starting exactly at `a`, if there is one: the end
/// of the key (the position of `=`) and the end of the raw value.
pub open spec fn token_at(s: Seq<char>, a: int) -> Option<(int, int)> {
    if 0 <= a < s.len() && is_word(s[a]) {
        let w = word_end(s, a);
        if w < s.len() && s[w] == '=' {
            let v0 = w + 1;
            if v0 < s.len() && s[v0] == '"' && quote_close(s, v0 + 1) is Some {
                Some((w, quote_close(s, v0 + 1)->0 + 1))
            } else if v0 < s.len() && !is_ws(s[v0]) {
                Some((w, nonws_end(s, v0)))
            } else {
                None
            }
        } else {
            None
        }
    } else {
        None
    }
}

pub proof fn lemma_token_at_bounds(s: Seq<char>, a: int)
    requires
        token_at(s, a) is Some,
    ensures
        ({
            let (w, vend) = token_at(s, a)->0;
            a < w && w + 1 < vend <= s.len()
        }),
{
    let w = word_end(s, a);
    lemma_word_end_props(s, a);
    let v0 = w + 1;
    if v0 < s.len() && s[v0] == '"' && quote_close(s, v0 + 1) is Some {
        lemma_quote_close_props(s, v0 + 1);
    } else if v0 < s.len() && !is_ws(s[v0]) {
        lemma_nonws_end_props(s, v0);
    }
}

pub proof fn lemma_word_end_props(s: Seq<char>, i: int)
    requires
        0 <= i <= s.len(),
    ensures
        i <= word_end(s, i) <= s.len(),
        forall|k: int| i <= k < word_end(s, i) ==> is_word(s[k]),
        i < s.len() && is_word(s[i]) ==> word_end(s, i) > i,
    decreases s.len() - i,
{
    if i < s.len() && is_word(s[i]) {
        lemma_word_end_props(s, i + 1);
    }
}

pub proof fn lemma_nonws_end_props(s: Seq<char>, i: int)
    requires
        0 <= i <= s.len(),
    ensures
        i <= nonws_end(s, i) <= s.len(),
        i < s.len() && !is_ws(s[i]) ==> nonws_end(s, i) > i,
    decreases s.len() - i,
{
    if i < s.len() && !is_ws(s[i]) {
        lemma_nonws_end_props(s, i + 1);
    }
}

pub proof fn lemma_quote_close_props(s: Seq<char>, i: int)
    requires
        0 <= i,
        quote_close(s, i) is Some,
    ensures
        i <= quote_close(s, i)->0 < s.len(),
    decreases s.len() - i,
{
    if i < s.len() && s[i] != '"' {
        lemma_quote_close_props(s, i + 1);
    }
}

/// The first token at or after `p`: its start, the end of its key and the
/// end of its raw value.
pub open spec fn next_token(s: Seq<char>, p: int) -> Option<(int, int, int)>
    decreases s.len() - p,
{
    if p < 0 || p >= s.len() {
        None
    } else if token_at(s, p) is Some {
        let (w, vend) = token_at(s, p)->0;
        Some((p, w, vend))
    } else {
        next_token(s, p + 1)
    }
}

pub proof fn lemma_next_token_bounds(s: Seq<char>, p: int)
    requires
        0 <= p,
        next_token(s, p) is Some,
    ensures
        ({
            let (a, w, vend) = next_token(s, p)->0;
            p <= a && a < w && w + 1 < vend <= s.len()
        }),
    decreases s.len() - p,
{
    if p < s.len() {
        if token_at(s, p) is Some {
            lemma_token_at_bounds(s, p);
        } else {
            lemma_next_token_bounds(s, p + 1);
        }
    }
}

pub proof fn lemma_next_token_found(s: Seq<char>, p: int, a: int)
    requires
        0 <= p <= a,
        token_at(s, a) is Some,
        forall|q: int| p <= q < a ==> token_at(s, q) is None,
    ensures
        next_token(s, p) == Some((a, (token_at(s, a)->0).0, (token_at(s, a)->0).1)),
    decreases a - p,
{
    lemma_token_at_bounds(s, a);
    if p < a {
        lemma_next_token_found(s, p + 1, a);
    }
}

pub proof fn lemma_next_token_none(s: Seq<char>, p: int)
    requires
        0 <= p,
        forall|q: int| p <= q < s.len() ==> token_at(s, q) is None,
    ensures
        next_token(s, p) == None::<(int, int, int)>,
    decreases s.len() - p,
{
    if p < s.len() {
        lemma_next_token_none(s, p + 1);
    }
}

/// The run of leading quotes of `v` from `i` on.
pub open spec fn lead_quotes(v: Seq<char>, i: int) -> int
    decreases v.len() - i,
{
    if i < 0 || i >= v.len() {
        v.len() as int
    } else if v[i] == '"' {
        lead_quotes(v, i + 1)
    } else {
        i
    }
}

/// The start of the run of trailing quotes of `v` that ends at `j`.
pub open spec fn trail_quotes(v: Seq<char>, j: int) -> int
    decreases j,
{
    if j <= 0 || j > v.len() {
        0
    } else if v[j - 1] == '"' {
        trail_quotes(v, j - 1)
    } else {
        j
    }
}

pub proof fn lemma_lead_quotes_is(v: Seq<char>, i: int, j: int)
    requires
        0 <= i <= j <= v.len(),
        forall|k: int| i <= k < j ==> v[k] == '"',
        j == v.len() || v[j] != '"',
    ensures
        lead_quotes(v, i) == j,
    decreases j - i,
{
    if i < j {
        lemma_lead_quotes_is(v, i + 1, j);
    }
}

pub proof fn lemma_trail_quotes_is(v: Seq<char>, j: int, b: int)
    requires
        0 <= b <= j <= v.len(),
        forall|k: int| b <= k < j ==> v[k] == '"',
        b == 0 || v[b - 1] != '"',
    ensures
        trail_quotes(v, j) == b,
    decreases j - b,
{
    if b < j {
        lemma_trail_quotes_is(v, j - 1, b);
    }
}

/// Strips surrounding quotes: when the raw value both starts and ends with a
/// double quote, every leading and every trailing quote is removed;
/// otherwise the value is kept as written.
pub open spec fn strip_value(v: Seq<char>) -> Seq<char> {
    if v.len() >= 1 && v[0] == '"' && v[v.len() - 1] == '"' {
        let a = lead_quotes(v, 0);
        let b = trail_quotes(v, v.len() as int);
        if a >= b {
            Seq::<char>::empty()
        } else {
            v.subrange(a, b)
        }
    } else {
        v
    }
}

/// All `key=value` tokens of `s` from position `p` on, in scan order, with
/// quotes stripped from the values.
pub open spec fn tokens_from(s: Seq<char>, p: int) -> Seq<(Seq<char>, Seq<char>)>
    decreases s.len() - p,
    via tokens_from_decreases
{
    match next_token(s, p) {
        None => Seq::empty(),
        Some((a, w, vend)) => seq![(s.subrange(a, w), strip_value(s.subrange(w + 1, vend)))]
            + tokens_from(s, vend),
    }
}

#[via_fn]
proof fn tokens_from_decreases(s: Seq<char>, p: int) {
    if 0 <= p && next_token(s, p) is Some {
        lemma_next_token_bounds(s, p);
    }
}

/// The index of the entry with key `k`, or -1 when no entry has it.
pub open spec fn key_index(acc: Seq<(Seq<char>, Seq<char>)>, k: Seq<char>) -> int
    decreases acc.len(),
{
    if acc.len() == 0 {
        -1
    } else if acc[0].0 == k {
        0
    } else {
        let r = key_index(acc.drop_first(), k);
        if r < 0 {
            -1
        } else {
            r + 1
        }
    }
}

/// Inserts a pair: overwrites the value of an existing key in place, appends
/// a new key at the end.
pub open spec fn upsert(acc: Seq<(Seq<char>, Seq<char>)>, kv: (Seq<char>, Seq<char>)) -> Seq<
    (Seq<char>, Seq<char>),
> {
    let i = key_index(acc, kv.0);
    if i < 0 {
        acc.push(kv)
    } else {
        acc.update(i, kv)
    }
}

/// Folds a token list into a details list: later values overwrite earlier
/// ones, keys keep the order of their first occurrence.
pub open spec fn dedup_pairs(ts: Seq<(Seq<char>, Seq<char>)>) -> Seq<(Seq<char>, Seq<char>)>
    decreases ts.len(),
{
    if ts.len() == 0 {
        Seq::empty()
    } else {
        upsert(dedup_pairs(ts.drop_last()), ts.last())
    }
}

/// The details mapping extracted from a message, as an ordered list of
/// key/value pairs with pairwise distinct keys.
pub open spec fn details_of(msg: Seq<char>) -> Seq<(Seq<char>, Seq<char>)> {
    dedup_pairs(tokens_from(msg, 0))
}

/// The view of an executable pair list.
pub open spec fn pairs_view(d: Seq<(String, String)>) -> Seq<(Seq<char>, Seq<char>)> {
    Seq::new(d.len(), |i: int| (d[i].0@, d[i].1@))
}

fn strip_exec(v: &str) -> (r: String)
    ensures
        r@ == strip_value(v@),
{
    let n = v.unicode_len();
    if n >= 1 && v.get_char(0) == '"' && v.get_char(n - 1) == '"' {
        let mut a: usize = 0;
        while a < n && v.get_char(a) == '"'
            invariant
                0 <= a <= n,
                n == v@.len(),
                forall|k: int| 0 <= k < a ==> v@[k] == '"',
            decreases n - a,
        {
            a = a + 1;
        }
        proof {
            lemma_lead_quotes_is(v@, 0, a as int);
        }
        let mut b: usize = n;
        while b > 0 && v.get_char(b - 1) == '"'
            invariant
                0 <= b <= n,
                n == v@.len(),
                forall|k: int| b <= k < n ==> v@[k] == '"',
            decreases b,
        {
            b = b - 1;
        }
        proof {
            lemma_trail_quotes_is(v@, n as int, b as int);
        }
        if a >= b {
            let r = String::new();
            proof {
                assert(r@ =~= strip_value(v@));
            }
            r
        } else {
            String::from_str(v.substring_char(a, b))
        }
    } else {
        String::from_str(v)
    }
}

/// Scans the message for `key=value` tokens and builds the details mapping:
/// the value of the last token wins for a repeated key, and keys stand in
/// the order of their first occurrence.
#[verifier::loop_isolation(false)]
pub fn extract_details(msg: &str) -> (r: Vec<(String, String)>)
    ensures
        pairs_view(r@) == details_of(msg@),
{
    let n = msg.unicode_len();
    let mut out: Vec<(String, String)> = Vec::new();
    let mut p: usize = 0;
    let ghost mut toks: Seq<(Seq<char>, Seq<char>)> = Seq::empty();
    proof {
        assert(tokens_from(msg@, 0) =~= toks + tokens_from(msg@, 0));
        assert(pairs_view(out@) =~= dedup_pairs(toks));
    }
    loop
        invariant
            p <= n,
            n == msg@.len(),
            tokens_from(msg@, 0) == toks + tokens_from(msg@, p as int),
            pairs_view(out@) == dedup_pairs(toks),
        decreases n - p,
    {
        // find the next token at or after p
        let mut a = p;
        let mut w: usize = 0;
        let mut vend: usize = 0;
        let mut found = false;
        while a < n && !found
            invariant
                p <= a <= n,
                n == msg@.len(),
                forall|q: int| p <= q < a ==> token_at(msg@, q) is None,
                found ==> token_at(msg@, a as int) == Some((w as int, vend as int)) && a < w && w
                    + 1 < vend <= n,
            decreases n - a, if found { 0int } else { 1int },
        {
            let c = msg.get_char(a);
            if word_char(c) {
                let we = scan_word(msg, a);
                proof {
                    lemma_word_end_props(msg@, a as int);
                }
                if we < n && msg.get_char(we) == '=' {
                    let v0 = we + 1;
                    if v0 < n && msg.get_char(v0) == '"' {
                        // look for the closing quote
                        let mut c2 = v0 + 1;
                        let mut qfound = false;
                        while c2 < n && !qfound
                            invariant
                                v0 + 1 <= c2 <= n,
                                n == msg@.len(),
                                forall|q: int| v0 + 1 <= q < c2 ==> msg@[q] != '"',
                                qfound ==> c2 < n && msg@[c2 as int] == '"',
                            decreases n - c2, if qfound { 0int } else { 1int },
                        {
                            if msg.get_char(c2) == '"' {
                                qfound = true;
                            } else {
                                c2 = c2 + 1;
                            }
                        }
                        if qfound {
                            proof {
                                lemma_quote_close_found(msg@, v0 + 1, c2 as int);
                            }
                            w = we;
                            vend = c2 + 1;
                            found = true;
                        } else {
                            proof {
                                lemma_quote_close_none(msg@, v0 + 1);
                                lemma_nonws_end_props(msg@, v0 as int);
                            }
                            w = we;
                            vend = scan_nonws(msg, v0);
                            found = true;
                        }
                    } else if v0 < n && !ws_char(msg.get_char(v0)) {
                        proof {
                            lemma_nonws_end_props(msg@, v0 as int);
                        }
                        w = we;
                        vend = scan_nonws(msg, v0);
                        found = true;
                    } else {
                        a = a + 1;
                    }
                } else {
                    a = a + 1;
                }
            } else {
                a = a + 1;
            }
        }
        if !found {
            proof {
                lemma_next_token_none(msg@, p as int);
                assert(tokens_from(msg@, p as int) =~= Seq::<(Seq<char>, Seq<char>)>::empty());
                assert(tokens_from(msg@, 0) =~= toks);
            }
            break;
        }
        proof {
            lemma_next_token_found(msg@, p as int, a as int);
        }
        let key = String::from_str(msg.substring_char(a, w));
        let rawval = msg.substring_char(w + 1, vend);
        let val = strip_exec(rawval);
        let ghost tok = (key@, val@);
        proof {
            assert(tokens_from(msg@, p as int) =~= seq![tok] + tokens_from(msg@, vend as int));
            assert(tokens_from(msg@, 0) =~= toks.push(tok) + tokens_from(msg@, vend as int));
        }
        // upsert into out
        let mut idx: usize = 0;
        let mut hit = false;
        while idx < out.len() && !hit
            invariant
                idx <= out.len(),
                forall|q: int| 0 <= q < idx ==> pairs_view(out@)[q].0 != key@,
                hit ==> idx < out.len() && pairs_view(out@)[idx as int].0 == key@,
            decreases out.len() - idx, if hit { 0int } else { 1int },
        {
            if out[idx].0 == key {
                hit = true;
            } else {
                idx = idx + 1;
            }
        }
        proof {
            lemma_key_index_is(
                pairs_view(out@),
                key@,
                if hit {
                    idx as int
                } else {
                    pairs_view(out@).len() as int
                },
            );
        }
        if hit {
            out[idx] = (key, val);
            proof {
                assert(pairs_view(out@) =~= upsert(dedup_pairs(toks), tok));
            }
        } else {
            out.push((key, val));
            proof {
                assert(pairs_view(out@) =~= upsert(dedup_pairs(toks), tok));
            }
        }
        proof {
            lemma_dedup_push(toks, tok);
            toks = toks.push(tok);
        }
        p = vend;
    }
    out
}

pub proof fn lemma_key_index_is(acc: Seq<(Seq<char>, Seq<char>)>, k: Seq<char>, i: int)
    requires
        0 <= i <= acc.len(),
        forall|q: int| 0 <= q < i ==> acc[q].0 != k,
        i == acc.len() || acc[i].0 == k,
    ensures
        key_index(acc, k) == if i == acc.len() {
            -1int
        } else {
            i
        },
    decreases i,
{
    if acc.len() == 0 {
    } else if acc[0].0 == k {
    } else {
        assert(i > 0 || acc[0].0 != k);
        lemma_key_index_is(acc.drop_first(), k, i - 1);
    }
}

pub proof fn lemma_dedup_push(ts: Seq<(Seq<char>, Seq<char>)>, x: (Seq<char>, Seq<char>))
    ensures
        dedup_pairs(ts.push(x)) == upsert(dedup_pairs(ts), x),
{
    assert(ts.push(x).drop_last() =~= ts);
    assert(ts.push(x).last() == x);
}


/// The details list is a genuine mapping: its keys are pairwise distinct.
pub open spec fn distinct_keys(acc: Seq<(Seq<char>, Seq<char>)>) -> bool {
    forall|i: int, j: int| 0 <= i < j < acc.len() ==> acc[i].0 != acc[j].0
}

pub proof fn lemma_key_index_props(acc: Seq<(Seq<char>, Seq<char>)>, k: Seq<char>)
    ensures
        key_index(acc, k) == -1 ==> forall|i: int| 0 <= i < acc.len() ==> acc[i].0 != k,
        key_index(acc, k) >= 0 ==> key_index(acc, k) < acc.len() && acc[key_index(acc, k)].0 == k,
    decreases acc.len(),
{
    if acc.len() > 0 && acc[0].0 != k {
        lemma_key_index_props(acc.drop_first(), k);
        if key_index(acc, k) == -1 {
            assert forall|i: int| 0 <= i < acc.len() implies acc[i].0 != k by {
                if i > 0 {
                    assert(acc.drop_first()[i - 1] == acc[i]);
                }
            }
        }
    }
}

pub proof fn lemma_upsert_distinct(acc: Seq<(Seq<char>, Seq<char>)>, kv: (Seq<char>, Seq<char>))
    requires
        distinct_keys(acc),
    ensures
        distinct_keys(upsert(acc, kv)),
{
    lemma_key_index_props(acc, kv.0);
}

pub proof fn lemma_dedup_distinct(ts: Seq<(Seq<char>, Seq<char>)>)
    ensures
        distinct_keys(dedup_pairs(ts)),
    decreases ts.len(),
{
    if ts.len() > 0 {
        lemma_dedup_distinct(ts.drop_last());
        lemma_upsert_distinct(dedup_pairs(ts.drop_last()), ts.last());
    }
}

/// The details mapping never holds a key twice: duplicate keys in the
/// message collapse onto one entry.
pub proof fn lemma_details_distinct_keys(msg: Seq<char>)
    ensures
        distinct_keys(details_of(msg)),
{
    lemma_dedup_distinct(tokens_from(msg, 0));
}

/// The value of the last token with key `k`, in scan order, if any token
/// has that key.
pub open spec fn last_value(ts: Seq<(Seq<char>, Seq<char>)>, k: Seq<char>) -> Option<Seq<char>>
    decreases ts.len(),
{
    if ts.len() == 0 {
        None
    } else if ts.last().0 == k {
        Some(ts.last().1)
    } else {
        last_value(ts.drop_last(), k)
    }
}

pub proof fn lemma_dedup_last_write_wins(ts: Seq<(Seq<char>, Seq<char>)>, k: Seq<char>)
    ensures
        last_value(ts, k) is None ==> forall|i: int|
            0 <= i < dedup_pairs(ts).len() ==> dedup_pairs(ts)[i].0 != k,
        last_value(ts, k) matches Some(v) ==> exists|i: int|
            0 <= i < dedup_pairs(ts).len() && dedup_pairs(ts)[i].0 == k && dedup_pairs(ts)[i].1
                == v,
    decreases ts.len(),
{
    if ts.len() > 0 {
        let x = ts.last();
        let pre = dedup_pairs(ts.drop_last());
        let post = dedup_pairs(ts);
        lemma_dedup_last_write_wins(ts.drop_last(), k);
        lemma_key_index_props(pre, x.0);
        let ki = key_index(pre, x.0);
        if x.0 == k {
            if ki >= 0 {
                assert(post[ki].0 == k && post[ki].1 == x.1);
            } else {
                assert(post[pre.len() as int].0 == k && post[pre.len() as int].1 == x.1);
            }
        } else {
            match last_value(ts.drop_last(), k) {
                None => {
                    assert forall|i: int| 0 <= i < post.len() implies post[i].0 != k by {
                        if ki >= 0 {
                            assert(post == pre.update(ki, x));
                        } else {
                            assert(post == pre.push(x));
                        }
                    }
                },
                Some(v) => {
                    let i = choose|i: int|
                        0 <= i < pre.len() && pre[i].0 == k && pre[i].1 == v;
                    if ki >= 0 {
                        assert(pre[ki].0 == x.0);
                        assert(i != ki);
                        assert(post[i] == pre[i]);
                    } else {
                        assert(post[i] == pre[i]);
                    }
                },
            }
        }
    }
}

/// Last write wins: for every key, the details mapping holds exactly the
/// value of the key's last token in scan order, and holds a key only when
/// some token has it.
pub proof fn lemma_details_last_write_wins(msg: Seq<char>, k: Seq<char>)
    ensures
        last_value(tokens_from(msg, 0), k) is None ==> forall|i: int|
            0 <= i < details_of(msg).len() ==> details_of(msg)[i].0 != k,
        last_value(tokens_from(msg, 0), k) matches Some(v) ==> exists|i: int|
            0 <= i < details_of(msg).len() && details_of(msg)[i].0 == k && details_of(msg)[i].1
                == v,
{
    lemma_dedup_last_write_wins(tokens_from(msg, 0), k);
    if last_value(tokens_from(msg, 0), k) is Some {
        let v = last_value(tokens_from(msg, 0), k)->0;
        let i = choose|i: int|
            0 <= i < dedup_pairs(tokens_from(msg, 0)).len() && dedup_pairs(tokens_from(msg, 0))[i].0
                == k && dedup_pairs(tokens_from(msg, 0))[i].1 == v;
        assert(0 <= i < details_of(msg).len() && details_of(msg)[i].0 == k && details_of(msg)[i].1
            == v);
    }
}

/// A message in which the scan finds no token yields an empty details
/// mapping.
pub proof fn lemma_no_tokens_empty_details(msg: Seq<char>)
    requires
        tokens_from(msg, 0) == Seq::<(Seq<char>, Seq<char>)>::empty(),
    ensures
        details_of(msg) == Seq::<(Seq<char>, Seq<char>)>::empty(),
{
}

} // verus!
