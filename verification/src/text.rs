use vstd::prelude::*;

verus! {

// ---------------------------------------------------------------------------
// Conversions between strings and character vectors
// ---------------------------------------------------------------------------

/// The characters of a string slice, in order.
pub fn chars_of(s: &str) -> (v: Vec<char>)
    ensures
        v@ == s@,
{
    let mut v: Vec<char> = Vec::new();
    for c in it: s.chars()
        invariant
            v@ == it.seq().take(it.index() as int),
            it.seq() == s@,
    {
        v.push(c);
    }
    v
}

/// Appends one character to a `String` (std's `String::push`).
#[verifier::external_body]
pub(crate) fn push_char(s: &mut String, c: char)
    ensures
        final(s)@ == old(s)@.push(c),
{
    s.push(c);
}

/// Builds a `String` holding exactly the given characters.
pub fn string_from_chars(cs: &[char]) -> (s: String)
    ensures
        s@ == cs@,
{
    let mut s = String::new();
    let n = cs.len();
    for i in 0..n
        invariant
            n == cs@.len(),
            s@ == cs@.take(i as int),
    {
        push_char(&mut s, cs[i]);
        assert(cs@.take(i + 1) == cs@.take(i as int).push(cs@[i as int]));
    }
    assert(cs@.take(n as int) == cs@);
    s
}

// ---------------------------------------------------------------------------
// Splitting at one character
// ---------------------------------------------------------------------------

/// `i` is the position of the first `c` in `s`.
pub open spec fn is_first_index(s: Seq<char>, c: char, i: int) -> bool {
    &&& 0 <= i < s.len()
    &&& s[i] == c
    &&& forall|j: int| 0 <= j < i ==> s[j] != c
}

/// `i` is the position of the last `c` in `s`.
pub open spec fn is_last_index(s: Seq<char>, c: char, i: int) -> bool {
    &&& 0 <= i < s.len()
    &&& s[i] == c
    &&& forall|j: int| i < j < s.len() ==> s[j] != c
}

/// What `str::split_once(c)` gives: the text before and after the first `c`.
pub open spec fn split_once_spec(s: Seq<char>, c: char) -> Option<(Seq<char>, Seq<char>)> {
    if exists|i: int| is_first_index(s, c, i) {
        let i = choose|i: int| is_first_index(s, c, i);
        Some((s.take(i), s.skip(i + 1)))
    } else {
        None
    }
}

/// What `str::rsplit_once(c)` gives: the text before and after the last `c`.
pub open spec fn rsplit_once_spec(s: Seq<char>, c: char) -> Option<(Seq<char>, Seq<char>)> {
    if exists|i: int| is_last_index(s, c, i) {
        let i = choose|i: int| is_last_index(s, c, i);
        Some((s.take(i), s.skip(i + 1)))
    } else {
        None
    }
}

/// There is at most one first position of a character.
pub proof fn lemma_first_index_unique(s: Seq<char>, c: char, i: int, j: int)
    requires
        is_first_index(s, c, i),
        is_first_index(s, c, j),
    ensures
        i == j,
{
}

/// There is at most one last position of a character.
pub proof fn lemma_last_index_unique(s: Seq<char>, c: char, i: int, j: int)
    requires
        is_last_index(s, c, i),
        is_last_index(s, c, j),
    ensures
        i == j,
{
}

/// Splitting `a + [c] + b`, where `a` holds no `c`, gives back `a` and `b`.
pub proof fn lemma_split_once_concat(a: Seq<char>, c: char, b: Seq<char>)
    requires
        !a.contains(c),
    ensures
        split_once_spec(a + seq![c] + b, c) == Some((a, b)),
{
    let s = a + seq![c] + b;
    assert(is_first_index(s, c, a.len() as int)) by {
        assert forall|j: int| 0 <= j < a.len() implies s[j] != c by {
            assert(s[j] == a[j]);
        }
    }
    let i = choose|i: int| is_first_index(s, c, i);
    lemma_first_index_unique(s, c, i, a.len() as int);
    assert(s.take(i) == a);
    assert(s.skip(i + 1) == b);
}

/// A text without `c` does not split at `c`.
pub proof fn lemma_split_once_absent(s: Seq<char>, c: char)
    requires
        !s.contains(c),
    ensures
        split_once_spec(s, c) is None,
{
    assert forall|i: int| !is_first_index(s, c, i) by {
        if is_first_index(s, c, i) {
            assert(s.contains(c));
        }
    }
}

/// The position of the first `c` in `s`, if any.
pub fn find_first(s: &[char], c: char) -> (r: Option<usize>)
    ensures
        r matches Some(i) ==> is_first_index(s@, c, i as int),
        r is None ==> !s@.contains(c),
{
    let n = s.len();
    for i in 0..n
        invariant
            n == s@.len(),
            forall|j: int| 0 <= j < i ==> s@[j] != c,
    {
        if s[i] == c {
            return Some(i);
        }
    }
    None
}

/// The position of the last `c` in `s`, if any.
pub fn find_last(s: &[char], c: char) -> (r: Option<usize>)
    ensures
        r matches Some(i) ==> is_last_index(s@, c, i as int),
        r is None ==> !s@.contains(c),
{
    let n = s.len();
    let mut k: usize = n;
    while k > 0
        invariant
            k <= n,
            n == s@.len(),
            forall|j: int| k <= j < n ==> s@[j] != c,
        decreases k,
    {
        k = k - 1;
        if s[k] == c {
            return Some(k);
        }
    }
    None
}

/// The characters `s[from..to]` as a new vector.
pub fn slice_chars(s: &[char], from: usize, to: usize) -> (r: Vec<char>)
    requires
        from <= to <= s@.len(),
    ensures
        r@ == s@.subrange(from as int, to as int),
{
    let mut r: Vec<char> = Vec::new();
    for i in from..to
        invariant
            from <= to <= s@.len(),
            r@ == s@.subrange(from as int, i as int),
    {
        r.push(s[i]);
        assert(s@.subrange(from as int, i + 1) == s@.subrange(from as int, i as int).push(s@[i as int]));
    }
    r
}

/// `str::split_once(c)` on a character vector.
pub fn split_once_chars(s: &[char], c: char) -> (r: Option<(Vec<char>, Vec<char>)>)
    ensures
        match r {
            Some((a, b)) => split_once_spec(s@, c) == Some((a@, b@)),
            None => split_once_spec(s@, c) is None,
        },
{
    match find_first(s, c) {
        Some(i) => {
            proof {
                let k = choose|k: int| is_first_index(s@, c, k);
                lemma_first_index_unique(s@, c, i as int, k);
            }
            let n = s.len();
            assert(i < n);
            let a = slice_chars(s, 0, i);
            let b = slice_chars(s, i + 1, n);
            assert(a@ == s@.take(i as int));
            assert(b@ == s@.skip(i + 1));
            Some((a, b))
        },
        None => {
            assert forall|i: int| !is_first_index(s@, c, i) by {
                if is_first_index(s@, c, i) {
                    assert(s@.contains(c));
                }
            }
            None
        },
    }
}

/// `str::split_once(c)` on a string slice.
pub fn split_once_str(s: &str, c: char) -> (r: Option<(String, String)>)
    ensures
        match r {
            Some((a, b)) => split_once_spec(s@, c) == Some((a@, b@)),
            None => split_once_spec(s@, c) is None,
        },
{
    let cs = chars_of(s);
    match split_once_chars(cs.as_slice(), c) {
        Some((a, b)) => Some((string_from_chars(a.as_slice()), string_from_chars(b.as_slice()))),
        None => None,
    }
}

/// `str::rsplit_once(c)` on a character vector.
pub fn rsplit_once_chars(s: &[char], c: char) -> (r: Option<(Vec<char>, Vec<char>)>)
    ensures
        match r {
            Some((a, b)) => rsplit_once_spec(s@, c) == Some((a@, b@)),
            None => rsplit_once_spec(s@, c) is None,
        },
{
    match find_last(s, c) {
        Some(i) => {
            proof {
                let k = choose|k: int| is_last_index(s@, c, k);
                lemma_last_index_unique(s@, c, i as int, k);
            }
            let n = s.len();
            assert(i < n);
            let a = slice_chars(s, 0, i);
            let b = slice_chars(s, i + 1, n);
            assert(a@ == s@.take(i as int));
            assert(b@ == s@.skip(i + 1));
            Some((a, b))
        },
        None => {
            assert forall|i: int| !is_last_index(s@, c, i) by {
                if is_last_index(s@, c, i) {
                    assert(s@.contains(c));
                }
            }
            None
        },
    }
}


// ---------------------------------------------------------------------------
// Splitting at every occurrence of one character
// ---------------------------------------------------------------------------

/// The views of a sequence of strings.
pub open spec fn strings_view(v: Seq<String>) -> Seq<Seq<char>> {
    v.map_values(|x: String| x@)
}

/// What `str::split(c)` yields: the pieces between the occurrences of `c`,
/// empty pieces included, so that there is always one more piece than there
/// are occurrences of `c`.
pub open spec fn split_on(s: Seq<char>, c: char) -> Seq<Seq<char>>
    decreases s.len(),
{
    if s.len() == 0 {
        seq![Seq::<char>::empty()]
    } else {
        let prev = split_on(s.drop_last(), c);
        if s.last() == c {
            prev.push(Seq::<char>::empty())
        } else {
            prev.update(prev.len() - 1, prev.last().push(s.last()))
        }
    }
}

pub proof fn lemma_split_on_len(s: Seq<char>, c: char)
    ensures
        split_on(s, c).len() >= 1,
    decreases s.len(),
{
    if s.len() > 0 {
        lemma_split_on_len(s.drop_last(), c);
    }
}

/// A sequence without `c` is one piece.
pub proof fn lemma_split_on_no_sep(s: Seq<char>, c: char)
    requires
        !s.contains(c),
    ensures
        split_on(s, c) == seq![s],
    decreases s.len(),
{
    if s.len() > 0 {
        assert(!s.drop_last().contains(c)) by {
            if s.drop_last().contains(c) {
                let k = choose|k: int| 0 <= k < s.drop_last().len() && s.drop_last()[k] == c;
                assert(s[k] == c);
            }
        }
        lemma_split_on_no_sep(s.drop_last(), c);
        assert(s.last() != c) by {
            assert(s[s.len() - 1] == s.last());
        }
        assert(s.drop_last().push(s.last()) == s);
        let prev = split_on(s.drop_last(), c);
        assert(prev.len() == 1 && prev.last() == s.drop_last());
        assert(prev.update(0, s.drop_last().push(s.last())) == seq![s]);
    } else {
        assert(s == Seq::<char>::empty());
    }
}

/// Splitting `a + [c] + b` splits `a` and `b` on their own.
pub proof fn lemma_split_on_concat(a: Seq<char>, c: char, b: Seq<char>)
    ensures
        split_on(a + seq![c] + b, c) == split_on(a, c) + split_on(b, c),
    decreases b.len(),
{
    let s = a + seq![c] + b;
    if b.len() == 0 {
        assert(s.drop_last() == a);
        assert(s.last() == c);
        assert(split_on(b, c) == seq![Seq::<char>::empty()]);
    } else {
        lemma_split_on_concat(a, c, b.drop_last());
        assert(s.drop_last() == a + seq![c] + b.drop_last());
        assert(s.last() == b.last());
        lemma_split_on_len(b.drop_last(), c);
        lemma_split_on_len(a, c);
        let pa = split_on(a, c);
        let pb = split_on(b.drop_last(), c);
        if b.last() == c {
            assert((pa + pb).push(Seq::<char>::empty()) == pa + pb.push(Seq::<char>::empty()));
        } else {
            let x = pb.last().push(b.last());
            assert((pa + pb).update(pa.len() + pb.len() - 1, x) == pa + pb.update(pb.len() - 1, x));
        }
    }
}

/// `str::split(c)` on a string slice.
pub fn split_str(s: &str, c: char) -> (parts: Vec<String>)
    ensures
        strings_view(parts@) == split_on(s@, c),
{
    let cs = chars_of(s);
    let n = cs.len();
    let mut parts: Vec<String> = Vec::new();
    let mut cur = String::new();
    assert(cs@.take(0) == Seq::<char>::empty());
    assert(strings_view(parts@).push(cur@) == split_on(cs@.take(0), c));
    for i in 0..n
        invariant
            n == cs@.len(),
            strings_view(parts@).push(cur@) == split_on(cs@.take(i as int), c),
    {
        let ghost before = strings_view(parts@);
        proof {
            assert(cs@.take(i + 1).drop_last() == cs@.take(i as int));
            assert(cs@.take(i + 1).last() == cs@[i as int]);
        }
        if cs[i] == c {
            parts.push(cur);
            cur = String::new();
            assert(strings_view(parts@) == before.push(split_on(cs@.take(i as int), c).last()));
        } else {
            push_char(&mut cur, cs[i]);
            assert(strings_view(parts@) == before);
        }
        assert(strings_view(parts@).push(cur@) == split_on(cs@.take(i + 1), c));
    }
    assert(cs@.take(n as int) == cs@);
    let ghost before = strings_view(parts@);
    parts.push(cur);
    assert(strings_view(parts@) == before.push(cur@));
    parts
}

// ---------------------------------------------------------------------------
// Substrings
// ---------------------------------------------------------------------------

/// `n` occurs in `h` starting at position `i`.
pub open spec fn occurs_at(h: Seq<char>, n: Seq<char>, i: int) -> bool {
    &&& 0 <= i
    &&& i + n.len() <= h.len()
    &&& h.subrange(i, i + n.len()) == n
}

/// What `str::contains(&str)` decides: `n` occurs somewhere in `h`.
pub open spec fn contains_seq(h: Seq<char>, n: Seq<char>) -> bool {
    exists|i: int| occurs_at(h, n, i)
}

fn matches_at(h: &[char], n: &[char], i: usize) -> (r: bool)
    requires
        i + n@.len() <= h@.len(),
    ensures
        r == occurs_at(h@, n@, i as int),
{
    let m = n.len();
    let hl = h.len();
    for k in 0..m
        invariant
            m == n@.len(),
            hl == h@.len(),
            i + m <= hl,
            forall|j: int| 0 <= j < k ==> h@[i + j] == n@[j],
    {
        if h[i + k] != n[k] {
            assert(h@.subrange(i as int, i + m)[k as int] != n@[k as int]);
            return false;
        }
    }
    assert(h@.subrange(i as int, i + m) == n@);
    true
}

/// `str::contains(&str)` on character vectors.
pub fn contains_chars(h: &[char], n: &[char]) -> (r: bool)
    ensures
        r == contains_seq(h@, n@),
{
    let hl = h.len();
    let nl = n.len();
    if nl > hl {
        assert forall|i: int| !occurs_at(h@, n@, i) by {}
        return false;
    }
    let last = hl - nl;
    let mut i: usize = 0;
    while i < last
        invariant
            hl == h@.len(),
            nl == n@.len(),
            last == hl - nl,
            i <= last,
            forall|j: int| 0 <= j < i ==> !occurs_at(h@, n@, j),
        decreases last - i,
    {
        if matches_at(h, n, i) {
            return true;
        }
        i = i + 1;
    }
    if matches_at(h, n, last) {
        return true;
    }
    assert forall|j: int| !occurs_at(h@, n@, j) by {
        if occurs_at(h@, n@, j) {
            assert(0 <= j <= last);
        }
    }
    false
}

/// `str::contains(&str)` on string slices.
pub fn contains_str(h: &str, n: &str) -> (r: bool)
    ensures
        r == contains_seq(h@, n@),
{
    let hc = chars_of(h);
    let nc = chars_of(n);
    contains_chars(hc.as_slice(), nc.as_slice())
}

// ---------------------------------------------------------------------------
// Whitespace
// ---------------------------------------------------------------------------

/// The characters with Unicode's `White_Space` property, which is what
/// `char::is_whitespace` tests.
pub open spec fn is_white_space(c: char) -> bool {
    ||| c == ' '
    ||| ('\t' <= c && c <= '\r')
    ||| c == '\u{85}'
    ||| c == '\u{a0}'
    ||| c == '\u{1680}'
    ||| ('\u{2000}' <= c && c <= '\u{200a}')
    ||| c == '\u{2028}'
    ||| c == '\u{2029}'
    ||| c == '\u{202f}'
    ||| c == '\u{205f}'
    ||| c == '\u{3000}'
}

/// `char::is_whitespace`.
pub fn is_white_space_char(c: char) -> (r: bool)
    ensures
        r == is_white_space(c),
{
    c == ' ' || ('\t' <= c && c <= '\r') || c == '\u{85}' || c == '\u{a0}' || c == '\u{1680}'
        || ('\u{2000}' <= c && c <= '\u{200a}') || c == '\u{2028}' || c == '\u{2029}'
        || c == '\u{202f}' || c == '\u{205f}' || c == '\u{3000}'
}

/// `s` without its leading whitespace.
pub open spec fn trim_start_spec(s: Seq<char>) -> Seq<char>
    decreases s.len(),
{
    if s.len() > 0 && is_white_space(s[0]) {
        trim_start_spec(s.drop_first())
    } else {
        s
    }
}

/// `s` without its trailing whitespace.
pub open spec fn trim_end_spec(s: Seq<char>) -> Seq<char>
    decreases s.len(),
{
    if s.len() > 0 && is_white_space(s.last()) {
        trim_end_spec(s.drop_last())
    } else {
        s
    }
}

/// What `str::trim` gives: `s` without leading and trailing whitespace.
pub open spec fn trim_spec(s: Seq<char>) -> Seq<char> {
    trim_end_spec(trim_start_spec(s))
}

/// `str::trim`.
pub fn trim_str(s: &str) -> (r: String)
    ensures
        r@ == trim_spec(s@),
{
    let cs = chars_of(s);
    let n = cs.len();
    let mut a: usize = 0;
    assert(cs@.skip(0) == cs@);
    while a < n && is_white_space_char(cs[a])
        invariant
            a <= n,
            n == cs@.len(),
            trim_start_spec(cs@) == trim_start_spec(cs@.skip(a as int)),
        decreases n - a,
    {
        assert(cs@.skip(a as int).drop_first() == cs@.skip(a + 1));
        a = a + 1;
    }
    let ghost mid = cs@.skip(a as int);
    assert(trim_start_spec(cs@) == mid);
    let mut b: usize = n;
    while b > a && is_white_space_char(cs[b - 1])
        invariant
            a <= b <= n,
            n == cs@.len(),
            mid == cs@.skip(a as int),
            trim_end_spec(mid) == trim_end_spec(cs@.subrange(a as int, b as int)),
        decreases b,
    {
        assert(cs@.subrange(a as int, b as int).drop_last() == cs@.subrange(a as int, b - 1));
        assert(cs@.subrange(a as int, b as int).last() == cs@[b - 1]);
        b = b - 1;
    }
    assert(mid == cs@.subrange(a as int, n as int));
    if b > a {
        assert(cs@.subrange(a as int, b as int).last() == cs@[b - 1]);
    }
    let r = slice_chars(cs.as_slice(), a, b);
    string_from_chars(r.as_slice())
}

/// Reading `s` left to right: the words completed so far and the word being read.
pub open spec fn ws_scan(s: Seq<char>) -> (Seq<Seq<char>>, Seq<char>)
    decreases s.len(),
{
    if s.len() == 0 {
        (Seq::<Seq<char>>::empty(), Seq::<char>::empty())
    } else {
        let (done, cur) = ws_scan(s.drop_last());
        let c = s.last();
        if is_white_space(c) {
            if cur.len() > 0 {
                (done.push(cur), Seq::<char>::empty())
            } else {
                (done, cur)
            }
        } else {
            (done, cur.push(c))
        }
    }
}

/// What `str::split_whitespace` yields: the maximal runs of characters that
/// are not whitespace, in order.
pub open spec fn split_whitespace_spec(s: Seq<char>) -> Seq<Seq<char>> {
    let (done, cur) = ws_scan(s);
    if cur.len() > 0 {
        done.push(cur)
    } else {
        done
    }
}


/// `s` holds no whitespace.
pub open spec fn no_white_space(s: Seq<char>) -> bool {
    forall|i: int| 0 <= i < s.len() ==> !is_white_space(#[trigger] s[i])
}

/// Reading a run without whitespace adds it to the word being read.
pub proof fn lemma_ws_scan_word(p: Seq<char>, w: Seq<char>)
    requires
        no_white_space(w),
    ensures
        ws_scan(p + w) == (ws_scan(p).0, ws_scan(p).1 + w),
    decreases w.len(),
{
    if w.len() == 0 {
        assert(p + w == p);
        assert(ws_scan(p).1 + w == ws_scan(p).1);
    } else {
        let w0 = w.drop_last();
        assert(no_white_space(w0)) by {
            assert forall|i: int| 0 <= i < w0.len() implies !is_white_space(#[trigger] w0[i]) by {
                assert(w0[i] == w[i]);
            }
        }
        lemma_ws_scan_word(p, w0);
        assert((p + w).drop_last() == p + w0);
        assert((p + w).last() == w[w.len() - 1]);
        assert(ws_scan(p).1 + w0 + seq![w.last()] == ws_scan(p).1 + w);
        assert((ws_scan(p).1 + w0).push(w.last()) == ws_scan(p).1 + w0 + seq![w.last()]);
    }
}

/// Reading a space completes the word being read, if any.
pub proof fn lemma_ws_scan_space(p: Seq<char>)
    ensures
        ws_scan(p + seq![' ']) == if ws_scan(p).1.len() > 0 {
            (ws_scan(p).0.push(ws_scan(p).1), Seq::<char>::empty())
        } else {
            ws_scan(p)
        },
{
    assert((p + seq![' ']).drop_last() == p);
    assert((p + seq![' ']).last() == ' ');
}

/// `str::split_whitespace`, collected.
pub fn split_whitespace_str(s: &str) -> (words: Vec<String>)
    ensures
        strings_view(words@) == split_whitespace_spec(s@),
{
    let cs = chars_of(s);
    let n = cs.len();
    let mut words: Vec<String> = Vec::new();
    let mut cur = String::new();
    let mut cur_len: usize = 0;
    assert(cs@.take(0) == Seq::<char>::empty());
    for i in 0..n
        invariant
            n == cs@.len(),
            cur_len <= i,
            cur_len == cur@.len(),
            ws_scan(cs@.take(i as int)) == (strings_view(words@), cur@),
    {
        let ghost before = strings_view(words@);
        proof {
            assert(cs@.take(i + 1).drop_last() == cs@.take(i as int));
            assert(cs@.take(i + 1).last() == cs@[i as int]);
        }
        if is_white_space_char(cs[i]) {
            if cur_len > 0 {
                words.push(cur);
                cur = String::new();
                cur_len = 0;
                assert(strings_view(words@) == before.push(ws_scan(cs@.take(i as int)).1));
            }
        } else {
            push_char(&mut cur, cs[i]);
            cur_len = cur_len + 1;
        }
        assert(ws_scan(cs@.take(i + 1)) == (strings_view(words@), cur@));
    }
    assert(cs@.take(n as int) == cs@);
    if cur_len > 0 {
        let ghost before = strings_view(words@);
        words.push(cur);
        assert(strings_view(words@) == before.push(ws_scan(cs@).1));
    }
    words
}

} // verus!
