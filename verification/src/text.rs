use vstd::prelude::*;

verus! {

/// The views of a sequence of strings.
pub open spec fn views(v: Seq<String>) -> Seq<Seq<char>> {
    v.map_values(|p: String| p@)
}

/// The views of a sequence of string slices.
pub open spec fn str_views(v: Seq<&str>) -> Seq<Seq<char>> {
    v.map_values(|p: &str| p@)
}

/// `pat` occurs in `s` starting at index `i`.
pub open spec fn occurs_at(s: Seq<char>, pat: Seq<char>, i: int) -> bool {
    &&& 0 <= i
    &&& i + pat.len() <= s.len()
    &&& s.subrange(i, i + pat.len()) == pat
}

/// `pat` occurs somewhere in `s`.
pub open spec fn contains_seq(s: Seq<char>, pat: Seq<char>) -> bool {
    exists|i: int| occurs_at(s, pat, i)
}

/// The first index at or after `i` where `pat` occurs in `s`.
pub open spec fn find_from(s: Seq<char>, pat: Seq<char>, i: nat) -> Option<nat>
    decreases s.len() + 1 - i,
{
    if i + pat.len() > s.len() {
        None
    } else if occurs_at(s, pat, i as int) {
        Some(i)
    } else {
        find_from(s, pat, i + 1)
    }
}

/// Splits `s` at the first occurrence of `pat`: the part before it, and the
/// part after it where there is one.
pub open spec fn split_once(s: Seq<char>, pat: Seq<char>) -> (Seq<char>, Option<Seq<char>>) {
    match find_from(s, pat, 0) {
        Some(i) => (s.take(i as int), Some(s.skip((i + pat.len()) as int))),
        None => (s, None),
    }
}

/// The pieces of `s` between the occurrences of `c` (`str::split` with a
/// character): one more piece than `s` has occurrences of `c`.
pub open spec fn split_on(s: Seq<char>, c: char) -> Seq<Seq<char>>
    decreases s.len(),
{
    if s.len() == 0 {
        seq![Seq::<char>::empty()]
    } else {
        let rest = split_on(s.drop_last(), c);
        if s.last() == c {
            rest.push(Seq::<char>::empty())
        } else {
            rest.update(rest.len() - 1, rest.last().push(s.last()))
        }
    }
}

/// `s` with every trailing `c` removed (`str::trim_end_matches` with a character).
pub open spec fn trim_end_char(s: Seq<char>, c: char) -> Seq<char>
    decreases s.len(),
{
    if s.len() > 0 && s.last() == c {
        trim_end_char(s.drop_last(), c)
    } else {
        s
    }
}

/// `s` with every leading `c` removed.
pub open spec fn trim_start_char(s: Seq<char>, c: char) -> Seq<char>
    decreases s.len(),
{
    if s.len() > 0 && s[0] == c {
        trim_start_char(s.drop_first(), c)
    } else {
        s
    }
}

/// `s` with every leading and trailing `c` removed (`str::trim_matches`).
pub open spec fn trim_char(s: Seq<char>, c: char) -> Seq<char> {
    trim_start_char(trim_end_char(s, c), c)
}

/// Characters with the Unicode `White_Space` property (`char::is_whitespace`).
pub open spec fn is_white_space(c: char) -> bool {
    let u = c as u32;
    ||| 0x09 <= u <= 0x0d
    ||| u == 0x20
    ||| u == 0x85
    ||| u == 0xa0
    ||| u == 0x1680
    ||| 0x2000 <= u <= 0x200a
    ||| u == 0x2028
    ||| u == 0x2029
    ||| u == 0x202f
    ||| u == 0x205f
    ||| u == 0x3000
}

/// `s` without trailing white space.
pub open spec fn trim_end_ws(s: Seq<char>) -> Seq<char>
    decreases s.len(),
{
    if s.len() > 0 && is_white_space(s.last()) {
        trim_end_ws(s.drop_last())
    } else {
        s
    }
}

/// `s` without leading white space.
pub open spec fn trim_start_ws(s: Seq<char>) -> Seq<char>
    decreases s.len(),
{
    if s.len() > 0 && is_white_space(s[0]) {
        trim_start_ws(s.drop_first())
    } else {
        s
    }
}

/// `s` without leading and trailing white space (`str::trim`).
pub open spec fn trim_ws(s: Seq<char>) -> Seq<char> {
    trim_start_ws(trim_end_ws(s))
}

/// A line without the carriage return that ended it.
pub open spec fn strip_cr(line: Seq<char>) -> Seq<char> {
    if line.len() > 0 && line.last() == '\r' {
        line.drop_last()
    } else {
        line
    }
}

/// The lines of `s` (`str::lines`): split at `'\n'`, a `'\r'` just before a
/// `'\n'` dropped, and no empty line after a final `'\n'`.
pub open spec fn lines_of(s: Seq<char>) -> Seq<Seq<char>> {
    let pieces = split_on(s, '\n');
    if s.len() == 0 {
        Seq::empty()
    } else if s.last() == '\n' {
        pieces.drop_last().map_values(|p: Seq<char>| strip_cr(p))
    } else {
        pieces.drop_last().map_values(|p: Seq<char>| strip_cr(p)).push(pieces.last())
    }
}

/// Code-point lexicographic order, the order of `String`'s `Ord`.
pub open spec fn seq_less(a: Seq<char>, b: Seq<char>) -> bool
    decreases a.len(),
{
    if a.len() == 0 {
        b.len() > 0
    } else if b.len() == 0 {
        false
    } else if a[0] != b[0] {
        (a[0] as int) < (b[0] as int)
    } else {
        seq_less(a.drop_first(), b.drop_first())
    }
}

/// `split_on` always gives at least one piece.
pub proof fn lemma_split_on_nonempty(s: Seq<char>, c: char)
    ensures
        split_on(s, c).len() >= 1,
    decreases s.len(),
{
    if s.len() > 0 {
        lemma_split_on_nonempty(s.drop_last(), c);
    }
}

/// `seq_less` is a strict total order.
pub proof fn lemma_seq_less_irreflexive(a: Seq<char>)
    ensures
        !seq_less(a, a),
    decreases a.len(),
{
    if a.len() > 0 {
        lemma_seq_less_irreflexive(a.drop_first());
    }
}

/// `seq_less` is a strict total order: any two different sequences are ordered.
pub proof fn lemma_seq_less_total(a: Seq<char>, b: Seq<char>)
    ensures
        a != b ==> seq_less(a, b) || seq_less(b, a),
        !(seq_less(a, b) && seq_less(b, a)),
    decreases a.len(),
{
    if a.len() > 0 && b.len() > 0 && a[0] == b[0] {
        lemma_seq_less_total(a.drop_first(), b.drop_first());
        if a.drop_first() == b.drop_first() {
            assert(a =~= seq![a[0]] + a.drop_first());
            assert(b =~= seq![b[0]] + b.drop_first());
        }
    } else if a.len() == 0 && b.len() == 0 {
        assert(a =~= b);
    }
}

/// `seq_less` is transitive.
pub proof fn lemma_seq_less_transitive(a: Seq<char>, b: Seq<char>, c: Seq<char>)
    requires
        seq_less(a, b),
        seq_less(b, c),
    ensures
        seq_less(a, c),
    decreases a.len(),
{
    if a.len() > 0 && b.len() > 0 && c.len() > 0 && a[0] == b[0] && b[0] == c[0] {
        lemma_seq_less_transitive(a.drop_first(), b.drop_first(), c.drop_first());
    }
}

/// Splitting `c` followed by `s` at `c` gives an empty piece, then the
/// pieces of `s`.
pub proof fn lemma_split_on_leading(s: Seq<char>, c: char)
    ensures
        split_on(seq![c] + s, c) == seq![Seq::<char>::empty()] + split_on(s, c),
    decreases s.len(),
{
    if s.len() == 0 {
        assert(seq![c] + s =~= seq![c]);
        assert(seq![c].drop_last() =~= Seq::<char>::empty());
        assert(split_on(Seq::<char>::empty(), c) =~= seq![Seq::<char>::empty()]);
        assert(split_on(seq![c], c) =~= seq![Seq::<char>::empty(), Seq::<char>::empty()]);
    } else {
        let x = seq![c] + s;
        assert(x.drop_last() =~= seq![c] + s.drop_last());
        assert(x.last() == s.last());
        lemma_split_on_leading(s.drop_last(), c);
        lemma_split_on_nonempty(s.drop_last(), c);
        let rest = split_on(s.drop_last(), c);
        if s.last() != c {
            assert((seq![Seq::<char>::empty()] + rest).update(
                rest.len() as int,
                rest.last().push(s.last()),
            ) =~= seq![Seq::<char>::empty()] + rest.update(rest.len() - 1, rest.last().push(s.last())));
        } else {
            assert((seq![Seq::<char>::empty()] + rest).push(Seq::<char>::empty()) =~= seq![
                Seq::<char>::empty(),
            ] + rest.push(Seq::<char>::empty()));
        }
    }
}

/// Trailing copies of `c` after a character other than `c` go, and the
/// character stays.
pub proof fn lemma_trim_end_char_leading(s: Seq<char>, c: char, d: char)
    requires
        d != c,
    ensures
        trim_end_char(seq![c] + (seq![d] + s), c) == seq![c] + trim_end_char(seq![d] + s, c),
    decreases s.len(),
{
    let x = seq![d] + s;
    if s.len() > 0 && s.last() == c {
        assert((seq![c] + x).drop_last() =~= seq![c] + (seq![d] + s.drop_last()));
        assert(x.drop_last() =~= seq![d] + s.drop_last());
        lemma_trim_end_char_leading(s.drop_last(), c, d);
    } else if s.len() == 0 {
        assert((seq![c] + x).last() == d);
    } else {
        assert((seq![c] + x).last() == s.last());
    }
}

/// The characters of `s`.
pub fn chars_of(s: &str) -> (v: Vec<char>)
    ensures
        v@ == s@,
{
    let n = s.unicode_len();
    let mut v: Vec<char> = Vec::new();
    let mut i: usize = 0;
    while i < n
        invariant
            n == s@.len(),
            i <= n,
            v@ == s@.take(i as int),
        decreases n - i,
    {
        v.push(s.get_char(i));
        i = i + 1;
        assert(v@ =~= s@.take(i as int));
    }
    assert(s@.take(n as int) =~= s@);
    v
}

/// The part of `s` from character `from` up to character `to`, as a new string.
pub fn substring(s: &str, from: usize, to: usize) -> (r: String)
    requires
        from <= to <= s@.len(),
    ensures
        r@ == s@.subrange(from as int, to as int),
{
    s.substring_char(from, to).to_owned()
}


/// What `find_from` gives: the first occurrence at or after `i`, if any.
pub proof fn lemma_find_from(s: Seq<char>, pat: Seq<char>, i: nat)
    ensures
        match find_from(s, pat, i) {
            Some(k) => i <= k && occurs_at(s, pat, k as int) && forall|j: int|
                i <= j < k ==> !occurs_at(s, pat, j),
            None => forall|j: int| i <= j ==> !occurs_at(s, pat, j),
        },
    decreases s.len() + 1 - i,
{
    if i + pat.len() > s.len() {
    } else if occurs_at(s, pat, i as int) {
    } else {
        lemma_find_from(s, pat, i + 1);
    }
}

/// Whether `pat` occurs in `s` at character index `i`.
fn occurs_at_exec(s: &Vec<char>, pat: &Vec<char>, i: usize) -> (b: bool)
    ensures
        b == occurs_at(s@, pat@, i as int),
{
    if i > s.len() || pat.len() > s.len() - i {
        return false;
    }
    let mut j: usize = 0;
    while j < pat.len()
        invariant
            s@.len() <= usize::MAX,
            i + pat@.len() <= s@.len(),
            j <= pat@.len(),
            forall|k: int| 0 <= k < j ==> s@[i + k] == pat@[k],
        decreases pat.len() - j,
    {
        if s[i + j] != pat[j] {
            assert(s@.subrange(i as int, i + pat@.len())[j as int] != pat@[j as int]);
            return false;
        }
        j = j + 1;
    }
    assert(s@.subrange(i as int, i + pat@.len()) =~= pat@);
    true
}

/// The first index at or after `from` where `pat` occurs in `s`.
pub fn find_in(s: &Vec<char>, pat: &Vec<char>, from: usize) -> (r: Option<usize>)
    ensures
        match r {
            Some(k) => find_from(s@, pat@, from as nat) == Some(k as nat),
            None => find_from(s@, pat@, from as nat) is None,
        },
{
    let mut i = from;
    while i <= s.len() && pat.len() <= s.len() - i
        invariant
            from <= i,
            find_from(s@, pat@, from as nat) == find_from(s@, pat@, i as nat),
        decreases s.len() + 1 - i,
    {
        if pat.len() == 0 {
            assert(s@.subrange(i as int, i as int) =~= pat@);
        }
        if occurs_at_exec(s, pat, i) {
            return Some(i);
        }
        i = i + 1;
    }
    None
}

/// Splits `s` at the first occurrence of `pat` (`str::splitn(2, pat)`).
pub fn split_once_str(s: &str, pat: &str) -> (r: (String, Option<String>))
    ensures
        r.0@ == split_once(s@, pat@).0,
        match r.1 {
            Some(rest) => split_once(s@, pat@).1 == Some(rest@),
            None => split_once(s@, pat@).1 is None,
        },
{
    let cs = chars_of(s);
    let ps = chars_of(pat);
    match find_in(&cs, &ps, 0) {
        Some(k) => {
            proof {
                lemma_find_from(s@, pat@, 0);
                assert(occurs_at(cs@, ps@, k as int));
                assert(cs@.len() == cs.len());
            }
            let before = substring(s, 0, k);
            let after = substring(s, k + ps.len(), cs.len());
            assert(before@ =~= s@.take(k as int));
            assert(after@ =~= s@.skip(k + pat@.len()));
            (before, Some(after))
        },
        None => (s.to_owned(), None),
    }
}

/// Whether `pat` occurs in `s` (`str::contains`).
pub fn contains_str(s: &str, pat: &str) -> (b: bool)
    ensures
        b == contains_seq(s@, pat@),
{
    let cs = chars_of(s);
    let ps = chars_of(pat);
    proof {
        lemma_find_from(s@, pat@, 0);
    }
    find_in(&cs, &ps, 0).is_some()
}

/// Whether `s` begins with the character `c`.
pub fn starts_with_char(s: &str, c: char) -> (b: bool)
    ensures
        b == (s@.len() > 0 && s@[0] == c),
{
    s.unicode_len() > 0 && s.get_char(0) == c
}

/// Splits `s` at every `c` (`str::split` with a character).
pub fn split_char(s: &str, c: char) -> (pieces: Vec<String>)
    ensures
        views(pieces@) == split_on(s@, c),
{
    let cs = chars_of(s);
    let n = cs.len();
    let mut pieces: Vec<String> = Vec::new();
    let mut start: usize = 0;
    let mut i: usize = 0;
    assert(s@.take(0) =~= Seq::<char>::empty());
    while i < n
        invariant
            n == s@.len(),
            cs@ == s@,
            start <= i <= n,
            split_on(s@.take(i as int), c) =~= views(pieces@).push(s@.subrange(start as int, i as int)),
        decreases n - i,
    {
        assert(s@.take(i + 1).drop_last() =~= s@.take(i as int));
        if cs[i] == c {
            let piece = substring(s, start, i);
            pieces.push(piece);
            start = i + 1;
            assert(s@.subrange(start as int, (i + 1) as int) =~= Seq::<char>::empty());
        } else {
            assert(s@.subrange(start as int, i as int).push(s@[i as int]) =~= s@.subrange(
                start as int,
                (i + 1) as int,
            ));
        }
        i = i + 1;
    }
    let last = substring(s, start, n);
    pieces.push(last);
    assert(s@.take(n as int) =~= s@);
    pieces
}


/// Whether `c` has the Unicode `White_Space` property.
pub fn is_white_space_exec(c: char) -> (b: bool)
    ensures
        b == is_white_space(c),
{
    let u = c as u32;
    (0x09 <= u && u <= 0x0d) || u == 0x20 || u == 0x85 || u == 0xa0 || u == 0x1680 || (0x2000
        <= u && u <= 0x200a) || u == 0x2028 || u == 0x2029 || u == 0x202f || u == 0x205f || u
        == 0x3000
}

/// `s` without leading and trailing white space (`str::trim`).
pub fn trim_str(s: &str) -> (r: String)
    ensures
        r@ == trim_ws(s@),
{
    let cs = chars_of(s);
    let mut e: usize = cs.len();
    assert(s@.take(e as int) =~= s@);
    while e > 0 && is_white_space_exec(cs[e - 1])
        invariant
            cs@ == s@,
            e <= cs@.len(),
            trim_end_ws(s@) == trim_end_ws(s@.take(e as int)),
        decreases e,
    {
        assert(s@.take(e as int).drop_last() =~= s@.take(e - 1));
        e = e - 1;
    }
    let mut b: usize = 0;
    while b < e && is_white_space_exec(cs[b])
        invariant
            cs@ == s@,
            b <= e <= cs@.len(),
            trim_end_ws(s@) == s@.take(e as int),
            trim_ws(s@) == trim_start_ws(s@.subrange(b as int, e as int)),
        decreases e - b,
    {
        assert(s@.subrange(b as int, e as int).drop_first() =~= s@.subrange(b + 1, e as int));
        b = b + 1;
    }
    assert(s@.take(e as int) =~= s@.subrange(0, e as int));
    substring(s, b, e)
}

/// `s` with every trailing `c` removed (`str::trim_end_matches`).
pub fn trim_end_char_str(s: &str, c: char) -> (r: String)
    ensures
        r@ == trim_end_char(s@, c),
{
    let cs = chars_of(s);
    let mut e: usize = cs.len();
    assert(s@.take(e as int) =~= s@);
    while e > 0 && cs[e - 1] == c
        invariant
            cs@ == s@,
            e <= cs@.len(),
            trim_end_char(s@, c) == trim_end_char(s@.take(e as int), c),
        decreases e,
    {
        assert(s@.take(e as int).drop_last() =~= s@.take(e - 1));
        e = e - 1;
    }
    assert(s@.take(e as int) =~= s@.subrange(0, e as int));
    substring(s, 0, e)
}

/// `s` with every leading and trailing `c` removed (`str::trim_matches`).
pub fn trim_char_str(s: &str, c: char) -> (r: String)
    ensures
        r@ == trim_char(s@, c),
{
    let cs = chars_of(s);
    let mut e: usize = cs.len();
    assert(s@.take(e as int) =~= s@);
    while e > 0 && cs[e - 1] == c
        invariant
            cs@ == s@,
            e <= cs@.len(),
            trim_end_char(s@, c) == trim_end_char(s@.take(e as int), c),
        decreases e,
    {
        assert(s@.take(e as int).drop_last() =~= s@.take(e - 1));
        e = e - 1;
    }
    let mut b: usize = 0;
    while b < e && cs[b] == c
        invariant
            cs@ == s@,
            b <= e <= cs@.len(),
            trim_end_char(s@, c) == s@.take(e as int),
            trim_char(s@, c) == trim_start_char(s@.subrange(b as int, e as int), c),
        decreases e - b,
    {
        assert(s@.subrange(b as int, e as int).drop_first() =~= s@.subrange(b + 1, e as int));
        b = b + 1;
    }
    assert(s@.take(e as int) =~= s@.subrange(0, e as int));
    substring(s, b, e)
}

/// The lines of `s` (`str::lines`).
pub fn lines_str(s: &str) -> (r: Vec<String>)
    ensures
        views(r@) == lines_of(s@),
{
    let pieces = split_char(s, '\n');
    let n = pieces.len();
    let cs = chars_of(s);
    if cs.len() == 0 {
        return Vec::new();
    }
    let ghost ps = split_on(s@, '\n');
    proof {
        lemma_split_on_nonempty(s@, '\n');
    }
    assert(ps.len() == n);
    let mut out: Vec<String> = Vec::new();
    let mut i: usize = 0;
    while i + 1 < n
        invariant
            n == ps.len(),
            views(pieces@) == ps,
            i < n,
            views(out@) =~= ps.take(i as int).map_values(|p: Seq<char>| strip_cr(p)),
        decreases n - i,
    {
        let p = &pieces[i];
        let pc = chars_of(p.as_str());
        let k = pc.len();
        let line = if k > 0 && pc[k - 1] == '\r' {
            substring(p.as_str(), 0, k - 1)
        } else {
            p.clone()
        };
        proof {
            assert(ps[i as int] == p@);
            if k > 0 && pc@[k - 1] == '\r' {
                assert(p@.subrange(0, k - 1) =~= p@.drop_last());
            }
        }
        out.push(line);
        i = i + 1;
        assert(ps.take(i as int).map_values(|p: Seq<char>| strip_cr(p)) =~= ps.take(
            (i - 1) as int,
        ).map_values(|p: Seq<char>| strip_cr(p)).push(strip_cr(ps[i - 1])));
    }
    assert(ps.take((n - 1) as int) =~= ps.drop_last());
    if cs[cs.len() - 1] != '\n' {
        out.push(pieces[n - 1].clone());
        assert(views(out@) =~= ps.drop_last().map_values(|p: Seq<char>| strip_cr(p)).push(
            ps.last(),
        ));
    }
    out
}

/// Code-point lexicographic order of two strings (`String`'s `<`).
pub fn str_less(a: &str, b: &str) -> (r: bool)
    ensures
        r == seq_less(a@, b@),
{
    let ac = chars_of(a);
    let bc = chars_of(b);
    let mut i: usize = 0;
    assert(a@.skip(0) =~= a@);
    assert(b@.skip(0) =~= b@);
    while i < ac.len() && i < bc.len() && ac[i] == bc[i]
        invariant
            ac@ == a@,
            bc@ == b@,
            i <= ac@.len(),
            i <= bc@.len(),
            seq_less(a@, b@) == seq_less(a@.skip(i as int), b@.skip(i as int)),
        decreases ac.len() - i,
    {
        assert(a@.skip(i as int).drop_first() =~= a@.skip(i + 1));
        assert(b@.skip(i as int).drop_first() =~= b@.skip(i + 1));
        i = i + 1;
    }
    if i == ac.len() {
        i < bc.len()
    } else if i == bc.len() {
        false
    } else {
        ac[i] < bc[i]
    }
}

} // verus!
