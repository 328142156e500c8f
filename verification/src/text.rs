use vstd::prelude::*;
use vstd::string::StrSliceExecFns;

verus! {

/// The characters of a string slice, in order.
pub fn chars_of(s: &str) -> (r: Vec<char>)
    ensures
        r@ == s@,
{
    let n = s.unicode_len();
    let mut out: Vec<char> = Vec::new();
    let mut i: usize = 0;
    while i < n
        invariant
            i <= n,
            n == s@.len(),
            out@ == s@.subrange(0, i as int),
        decreases n - i,
    {
        out.push(s.get_char(i));
        i += 1;
        proof {
            assert(out@ =~= s@.subrange(0, i as int));
        }
    }
    proof {
        assert(s@.subrange(0, n as int) =~= s@);
    }
    out
}

/// Whether `p` occurs in `s` as a contiguous subsequence.
pub open spec fn contains_seq(s: Seq<char>, p: Seq<char>) -> bool {
    exists|x: int| 0 <= x <= s.len() - p.len() && #[trigger] s.subrange(x, x + p.len()) == p
}

/// Whether `k` stands at position `i` of `s`.
fn match_at(s: &Vec<char>, i: usize, k: &Vec<char>) -> (r: bool)
    requires
        i + k@.len() <= s@.len(),
    ensures
        r == (s@.subrange(i as int, i as int + k@.len()) == k@),
{
    let _slen = s.len();
    let klen = k.len();
    let mut j: usize = 0;
    while j < klen
        invariant
            j <= klen,
            klen == k@.len(),
            i + klen <= s@.len(),
            s@.len() <= usize::MAX,
            forall|x: int| 0 <= x < j ==> s@[i + x] == k@[x],
        decreases klen - j,
    {
        if s[i + j] != k[j] {
            proof {
                assert(s@.subrange(i as int, i as int + k@.len())[j as int] != k@[j as int]);
            }
            return false;
        }
        j += 1;
    }
    proof {
        assert(s@.subrange(i as int, i as int + k@.len()) =~= k@);
    }
    true
}

/// Whether `p` occurs anywhere in `s`.
pub fn seq_contains(s: &Vec<char>, p: &Vec<char>) -> (r: bool)
    ensures
        r == contains_seq(s@, p@),
{
    if p.len() == 0 {
        proof {
            assert(s@.subrange(0, 0 + p@.len() as int) =~= p@);
        }
        return true;
    }
    if p.len() > s.len() {
        return false;
    }
    let last = s.len() - p.len();
    let mut i: usize = 0;
    while i <= last
        invariant
            i <= last + 1,
            last == s@.len() - p@.len(),
            p@.len() >= 1,
            s@.len() <= usize::MAX,
            forall|x: int| 0 <= x < i ==> #[trigger] s@.subrange(x, x + p@.len()) != p@,
        decreases last - i + 1,
    {
        if match_at(s, i, p) {
            return true;
        }
        i += 1;
    }
    false
}

/// Every occurrence of `k` in `s` replaced by `v`: scanning left to right,
/// each non-overlapping occurrence of `k` is replaced and scanning resumes
/// after the replacement. An empty `k` matches at every position (before
/// every character and at the end), as the standard library's string
/// replacement does.
pub open spec fn replace_all(s: Seq<char>, k: Seq<char>, v: Seq<char>) -> Seq<char>
    decreases s.len(),
{
    if k.len() == 0 {
        if s.len() == 0 {
            v
        } else {
            v + seq![s[0]] + replace_all(s.skip(1), k, v)
        }
    } else if s.len() < k.len() {
        s
    } else if s.subrange(0, k.len() as int) == k {
        v + replace_all(s.skip(k.len() as int), k, v)
    } else {
        seq![s[0]] + replace_all(s.skip(1), k, v)
    }
}

/// `skip` distributes over the head cases `replace_all` recurses through.
proof fn lemma_skip_skip(s: Seq<char>, a: int, b: int)
    requires
        0 <= a,
        0 <= b,
        a + b <= s.len(),
    ensures
        s.skip(a).skip(b) == s.skip(a + b),
{
    assert(s.skip(a).skip(b) =~= s.skip(a + b));
}

/// Appends every character of `v` to `out`.
fn append_all(out: &mut Vec<char>, v: &Vec<char>)
    ensures
        final(out)@ == old(out)@ + v@,
{
    let n = v.len();
    let mut j: usize = 0;
    while j < n
        invariant
            j <= n,
            n == v@.len(),
            out@ == old(out)@ + v@.subrange(0, j as int),
        decreases n - j,
    {
        out.push(v[j]);
        j += 1;
        proof {
            assert(out@ =~= old(out)@ + v@.subrange(0, j as int));
        }
    }
    proof {
        assert(old(out)@ + v@.subrange(0, n as int) =~= old(out)@ + v@);
    }
}

/// Replaces every occurrence of `k` in `s` by `v`, leftmost first, without
/// overlap.
pub fn replace_all_chars(s: &Vec<char>, k: &Vec<char>, v: &Vec<char>) -> (r: Vec<char>)
    ensures
        r@ == replace_all(s@, k@, v@),
{
    let slen = s.len();
    let klen = k.len();
    let mut out: Vec<char> = Vec::new();
    let mut i: usize = 0;
    proof {
        assert(s@.skip(0) =~= s@);
    }
    if klen == 0 {
        while i < slen
            invariant
                i <= slen,
                slen == s@.len(),
                klen == k@.len(),
                klen == 0,
                replace_all(s@, k@, v@) == out@ + replace_all(s@.skip(i as int), k@, v@),
            decreases slen - i,
        {
            proof {
                lemma_skip_skip(s@, i as int, 1);
                assert(s@.skip(i as int)[0] == s@[i as int]);
            }
            let ghost pre = out@;
            append_all(&mut out, v);
            out.push(s[i]);
            i += 1;
            proof {
                assert(pre + (v@ + seq![s@[i - 1]] + replace_all(s@.skip(i as int), k@, v@))
                    =~= out@ + replace_all(s@.skip(i as int), k@, v@));
            }
        }
        proof {
            assert(s@.skip(slen as int) =~= Seq::<char>::empty());
        }
        append_all(&mut out, v);
        return out;
    }
    if klen <= slen {
        let last = slen - klen;
        while i <= last
            invariant
                i <= slen,
                last == slen - klen,
                slen == s@.len(),
                klen == k@.len(),
                klen >= 1,
                s@.len() <= usize::MAX,
                replace_all(s@, k@, v@) == out@ + replace_all(s@.skip(i as int), k@, v@),
            decreases slen - i,
        {
            proof {
                assert(s@.skip(i as int).subrange(0, klen as int) =~= s@.subrange(
                    i as int,
                    i as int + klen as int,
                ));
            }
            if match_at(s, i, k) {
                let ghost pre = out@;
                proof {
                    lemma_skip_skip(s@, i as int, klen as int);
                }
                append_all(&mut out, v);
                i += klen;
                proof {
                    assert(pre + (v@ + replace_all(s@.skip(i as int), k@, v@)) =~= out@
                        + replace_all(s@.skip(i as int), k@, v@));
                }
            } else {
                proof {
                    lemma_skip_skip(s@, i as int, 1);
                    assert(s@.skip(i as int)[0] == s@[i as int]);
                }
                let ghost pre = out@;
                out.push(s[i]);
                i += 1;
                proof {
                    assert(pre + (seq![s@[i - 1]] + replace_all(s@.skip(i as int), k@, v@)) =~= out@
                        + replace_all(s@.skip(i as int), k@, v@));
                }
            }
        }
    }
    // the remainder is shorter than `k`, so it is kept as it is
    proof {
        assert(replace_all(s@.skip(i as int), k@, v@) == s@.skip(i as int));
    }
    let mut j: usize = i;
    while j < slen
        invariant
            i <= j <= slen,
            slen == s@.len(),
            replace_all(s@, k@, v@) == out@ + s@.skip(j as int),
        decreases slen - j,
    {
        let ghost pre = out@;
        out.push(s[j]);
        j += 1;
        proof {
            assert(pre + s@.skip(j as int - 1) =~= out@ + s@.skip(j as int));
        }
    }
    proof {
        assert(out@ + s@.skip(slen as int) =~= out@);
    }
    out
}

/// Whether a character has the Han script property (the regex class
/// `\p{Han}`).
pub uninterp spec fn han_char(c: char) -> bool;

/// Relies on the regex crate's Unicode script tables: whether one character
/// is in the class `\p{Han}`, a property of the character alone. The fixed
/// pattern is a valid regex, so building it cannot fail.
#[verifier::external_body]
fn char_is_han(c: char) -> (r: bool)
    ensures
        r == han_char(c),
{
    let re = regex::Regex::new("\\p{Han}").unwrap();
    re.is_match(c.to_string().as_str())
}

/// The position of the first `]` in `s` at or after `j`, or `s.len()` when
/// there is none.
pub open spec fn find_close(s: Seq<char>, j: int) -> int
    decreases s.len() - j,
{
    if j >= s.len() {
        s.len() as int
    } else if s[j] == ']' {
        j
    } else {
        find_close(s, j + 1)
    }
}

/// `find_close` on a suffix mirrors `find_close` on the whole sequence.
proof fn lemma_find_close_shift(s: Seq<char>, off: int, j: int)
    requires
        0 <= off <= s.len(),
        0 <= j,
    ensures
        find_close(s.skip(off), j) == find_close(s, off + j) - off,
    decreases s.len() - off - j,
{
    if j < s.len() - off {
        assert(s.skip(off)[j] == s[off + j]);
        if s[off + j] != ']' {
            lemma_find_close_shift(s, off, j + 1);
        }
    }
}

/// Whether `s` begins with a pronunciation group: a Han character, `[`, at
/// least one character that is not `]`, then `]`.
pub open spec fn han_match_front(s: Seq<char>) -> bool {
    &&& s.len() >= 4
    &&& han_char(s[0])
    &&& s[1] == '['
    &&& 3 <= find_close(s, 2) < s.len()
}

/// The pronunciation rewrite: each group `X[reading]`, where `X` is one Han
/// character and `reading` is non-empty and free of `]`, is replaced by
/// `reading` alone, scanning left to right without overlap. All other
/// characters stay.
pub open spec fn han_rewrite(s: Seq<char>) -> Seq<char>
    decreases s.len(),
{
    if s.len() == 0 {
        Seq::empty()
    } else if han_match_front(s) {
        let j = find_close(s, 2);
        s.subrange(2, j) + han_rewrite(s.skip(j + 1))
    } else {
        seq![s[0]] + han_rewrite(s.skip(1))
    }
}

/// The position of the first `]` at or after `j`, or the length when there
/// is none.
fn find_close_at(s: &Vec<char>, j: usize) -> (r: usize)
    requires
        j <= s@.len(),
    ensures
        r as int == find_close(s@, j as int),
{
    let n = s.len();
    let mut k: usize = j;
    while k < n
        invariant
            j <= k <= n,
            n == s@.len(),
            find_close(s@, j as int) == find_close(s@, k as int),
        decreases n - k,
    {
        if s[k] == ']' {
            return k;
        }
        k += 1;
    }
    n
}

/// Appends `s[from..to]` to `out`.
fn push_range(out: &mut Vec<char>, s: &Vec<char>, from: usize, to: usize)
    requires
        from <= to <= s@.len(),
    ensures
        final(out)@ == old(out)@ + s@.subrange(from as int, to as int),
{
    let mut j: usize = from;
    while j < to
        invariant
            from <= j <= to,
            to <= s@.len(),
            out@ == old(out)@ + s@.subrange(from as int, j as int),
        decreases to - j,
    {
        out.push(s[j]);
        j += 1;
        proof {
            assert(out@ =~= old(out)@ + s@.subrange(from as int, j as int));
        }
    }
}

/// Applies the pronunciation rewrite to a character buffer.
pub fn han_rewrite_chars(s: &Vec<char>) -> (r: Vec<char>)
    ensures
        r@ == han_rewrite(s@),
{
    let slen = s.len();
    let mut out: Vec<char> = Vec::new();
    let mut i: usize = 0;
    proof {
        assert(s@.skip(0) =~= s@);
    }
    while i < slen
        invariant
            i <= slen,
            slen == s@.len(),
            han_rewrite(s@) == out@ + han_rewrite(s@.skip(i as int)),
        decreases slen - i,
    {
        let mut matched = false;
        let mut close: usize = 0;
        if i + 1 < slen && char_is_han(s[i]) && s[i + 1] == '[' {
            close = find_close_at(s, i + 2);
            if close > i + 2 && close < slen {
                matched = true;
            }
        }
        if matched {
            proof {
                lemma_find_close_shift(s@, i as int, 2);
                assert(s@.skip(i as int)[0] == s@[i as int]);
                assert(s@.skip(i as int)[1] == s@[i as int + 1]);
                assert(han_match_front(s@.skip(i as int)));
            }
            let ghost pre = out@;
            push_range(&mut out, s, i + 2, close);
            proof {
                assert(s@.skip(i as int).subrange(2, close - i) =~= s@.subrange(
                    i as int + 2,
                    close as int,
                ));
                lemma_skip_skip(s@, i as int, close - i + 1);
                assert(pre + (s@.skip(i as int).subrange(2, close - i) + han_rewrite(
                    s@.skip(close as int + 1),
                )) =~= out@ + han_rewrite(s@.skip(close as int + 1)));
            }
            i = close + 1;
        } else {
            proof {
                if i + 2 <= slen {
                    lemma_find_close_shift(s@, i as int, 2);
                }
                assert(s@.skip(i as int)[0] == s@[i as int]);
                if i + 1 < slen {
                    assert(s@.skip(i as int)[1] == s@[i as int + 1]);
                }
                assert(!han_match_front(s@.skip(i as int)));
                lemma_skip_skip(s@, i as int, 1);
            }
            let ghost pre = out@;
            out.push(s[i]);
            i += 1;
            proof {
                assert(pre + (seq![s@[i - 1]] + han_rewrite(s@.skip(i as int))) =~= out@
                    + han_rewrite(s@.skip(i as int)));
            }
        }
    }
    proof {
        assert(s@.skip(slen as int) =~= Seq::<char>::empty());
    }
    out
}

/// The character sequences of a list of string pairs.
pub open spec fn pairs_view(s: Seq<(String, String)>) -> Seq<(Seq<char>, Seq<char>)> {
    s.map_values(|p: (String, String)| (p.0@, p.1@))
}

/// What the lexicon file content parses to: the string-valued entries of the
/// top JSON object, in the parser's (deterministic) object order, or `None`
/// when the content is not a JSON object.
pub uninterp spec fn lexicon_of(s: Seq<char>) -> Option<Seq<(Seq<char>, Seq<char>)>>;

/// Relies on serde_json: parses the lexicon content as JSON, and keeps the
/// string-valued entries of the top-level object. The result depends on the
/// content alone.
#[verifier::external_body]
fn parse_lexicon(content: &str) -> (r: Option<Vec<(String, String)>>)
    ensures
        r is Some <==> lexicon_of(content@) is Some,
        r is Some ==> pairs_view(r.unwrap()@) == lexicon_of(content@).unwrap(),
{
    let value: serde_json::Value = match serde_json::from_str(content) {
        Ok(v) => v,
        Err(_) => return None,
    };
    let obj = match value.as_object() {
        Some(o) => o,
        None => return None,
    };
    let mut entries = Vec::new();
    for (key, val) in obj {
        if let Some(to) = val.as_str() {
            entries.push((key.clone(), to.to_string()));
        }
    }
    Some(entries)
}

/// Relies on std's `FromIterator` for `String`: collecting characters yields
/// the string whose characters are exactly the given sequence.
#[verifier::external_body]
fn chars_to_string(chars: &Vec<char>) -> (r: String)
    ensures
        r@ == chars@,
{
    chars.iter().collect()
}

/// The lexicon entries applied in order: each entry replaces every
/// occurrence of its key by its value, earlier entries first.
pub open spec fn apply_entries(s: Seq<char>, entries: Seq<(Seq<char>, Seq<char>)>) -> Seq<char>
    decreases entries.len(),
{
    if entries.len() == 0 {
        s
    } else {
        apply_entries(replace_all(s, entries[0].0, entries[0].1), entries.skip(1))
    }
}

/// The full preprocessing of a text before it is handed to the speech
/// engine, given the parsed lexicon: the lexicon entries are applied in
/// order; then, unless a `[dì]` reading is already present, the fallback
/// reading for the polyphone is inserted; finally every pronunciation group
/// collapses to its reading.
pub open spec fn process_spec(text: Seq<char>, lexicon: Option<Seq<(Seq<char>, Seq<char>)>>) -> Seq<
    char,
> {
    let entries = if lexicon is Some {
        lexicon.unwrap()
    } else {
        Seq::<(Seq<char>, Seq<char>)>::empty()
    };
    let applied = apply_entries(text, entries);
    let marked = if contains_seq(applied, "[dì]"@) {
        applied
    } else {
        replace_all(applied, "地"@, "地[dì]"@)
    };
    han_rewrite(marked)
}

/// Rewrites a text for the speech engine: applies the lexicon (the content
/// of the lexicon file, if one was readable), inserts the fallback reading
/// for the polyphone unless one is present, and collapses each pronunciation
/// group `X[reading]` to its reading.
pub fn process_tts_text(text: &str, lexicon_json: Option<&str>) -> (r: String)
    ensures
        r@ == process_spec(
            text@,
            match lexicon_json {
                Some(j) => lexicon_of(j@),
                None => None,
            },
        ),
{
    let mut cur = chars_of(text);
    let entries: Vec<(String, String)> = match lexicon_json {
        Some(j) => match parse_lexicon(j) {
            Some(v) => v,
            None => Vec::new(),
        },
        None => Vec::new(),
    };
    let ghost eview = pairs_view(entries@);
    proof {
        assert(eview.skip(0) =~= eview);
        if eview.len() == 0 {
            assert(eview =~= Seq::<(Seq<char>, Seq<char>)>::empty());
        }
    }
    let n = entries.len();
    let mut i: usize = 0;
    while i < n
        invariant
            i <= n,
            n == entries@.len(),
            eview == pairs_view(entries@),
            apply_entries(cur@, eview.skip(i as int)) == apply_entries(text@, eview),
        decreases n - i,
    {
        let key = chars_of(entries[i].0.as_str());
        let val = chars_of(entries[i].1.as_str());
        let ghost before = cur@;
        cur = replace_all_chars(&cur, &key, &val);
        proof {
            assert(eview.skip(i as int)[0] == (entries@[i as int].0@, entries@[i as int].1@));
            assert(eview.skip(i as int).skip(1) =~= eview.skip(i as int + 1));
        }
        i += 1;
    }
    proof {
        assert(eview.skip(n as int) =~= Seq::<(Seq<char>, Seq<char>)>::empty());
    }
    let marker = chars_of("[dì]");
    if !seq_contains(&cur, &marker) {
        let key = chars_of("地");
        let val = chars_of("地[dì]");
        cur = replace_all_chars(&cur, &key, &val);
    }
    let rewritten = han_rewrite_chars(&cur);
    chars_to_string(&rewritten)
}

} // verus!
