//! Text primitives: finding, splitting and trimming, stated over sequences of
//! characters and carried out on string slices.
use vstd::prelude::*;

verus! {

/// Whether `c` is alphabetic or numeric in the sense of `char::is_alphanumeric`.
pub uninterp spec fn alphanumeric(c: char) -> bool;

/// Whether `c` is white space in the sense of `char::is_whitespace`.
pub uninterp spec fn whitespace(c: char) -> bool;

/// A text in upper case in the sense of `str::to_uppercase`.
pub uninterp spec fn uppercase(s: Seq<char>) -> Seq<char>;

/// `char::is_alphanumeric` is taken on trust: its answer depends on the
/// character alone, and is what contracts call `alphanumeric`.
pub assume_specification[ char::is_alphanumeric ](c: char) -> (r: bool)
    ensures
        r == alphanumeric(c),
;

/// `char::is_whitespace` is taken on trust: its answer depends on the
/// character alone, and is what contracts call `whitespace`.
pub assume_specification[ char::is_whitespace ](c: char) -> (r: bool)
    ensures
        r == whitespace(c),
;

/// `str::to_uppercase` is taken on trust: its result depends on the text
/// alone, and is what contracts call `uppercase`.
pub assume_specification[ str::to_uppercase ](s: &str) -> (r: String)
    ensures
        r@ == uppercase(s@),
;

/// A character of a name: alphanumeric or an underscore.
pub open spec fn is_word_char(c: char) -> bool {
    alphanumeric(c) || c == '_'
}

/// A character of a dotted name: a character of a name, or a dot.
pub open spec fn is_dotted_char(c: char) -> bool {
    is_word_char(c) || c == '.'
}

/// The characters that trimming keeps: those of a dotted name where `dotted`
/// holds, else those of a name.
pub open spec fn is_kept(c: char, dotted: bool) -> bool {
    if dotted {
        is_dotted_char(c)
    } else {
        is_word_char(c)
    }
}

/// Every character of `s` is a character of a name.
pub open spec fn all_word_chars(s: Seq<char>) -> bool {
    forall|i: int| 0 <= i < s.len() ==> is_word_char(#[trigger] s[i])
}

/// Whether `c` is a character of a name.
pub fn word_char(c: char) -> (r: bool)
    ensures
        r == is_word_char(c),
{
    c.is_alphanumeric() || c == '_'
}

/// Whether trimming keeps `c`.
pub fn kept(c: char, dotted: bool) -> (r: bool)
    ensures
        r == is_kept(c, dotted),
{
    word_char(c) || (dotted && c == '.')
}

/// Whether every character of `s` is a character of a name.
pub fn only_word_chars(s: &str) -> (r: bool)
    ensures
        r == all_word_chars(s@),
{
    let cs = chars_of(s);
    let mut i: usize = 0;
    while i < cs.len()
        invariant
            i <= cs.len(),
            cs@ == s@,
            forall|j: int| 0 <= j < i ==> is_word_char(#[trigger] s@[j]),
        decreases cs.len() - i,
    {
        if !word_char(cs[i]) {
            return false;
        }
        i += 1;
    }
    true
}

/// Whether the character `a` comes before the character `b`.
pub fn char_less(a: char, b: char) -> (r: bool)
    ensures
        r == ((a as u32) < (b as u32)),
{
    a < b
}

/// The views of a sequence of strings.
pub open spec fn texts(v: Seq<String>) -> Seq<Seq<char>> {
    v.map_values(|s: String| s@)
}

/// The views of a sequence of string slices.
pub open spec fn slices(v: Seq<&str>) -> Seq<Seq<char>> {
    v.map_values(|s: &str| s@)
}

/// The text of an optional string.
pub open spec fn opt_text(o: Option<String>) -> Option<Seq<char>> {
    match o {
        Some(s) => Some(s@),
        None => None,
    }
}

/// The characters of `s`, one by one.
pub fn chars_of(s: &str) -> (v: Vec<char>)
    ensures
        v@ == s@,
{
    let mut v: Vec<char> = Vec::new();
    for c in it: s.chars()
        invariant
            v@ == it.seq().take(it.index() as int),
    {
        v.push(c);
    }
    v
}

/// Whether the two slices hold the same text.
pub fn same_text(a: &str, b: &str) -> (r: bool)
    ensures
        r == (a@ == b@),
{
    let x = chars_of(a);
    let y = chars_of(b);
    if x.len() != y.len() {
        return false;
    }
    let mut i: usize = 0;
    while i < x.len()
        invariant
            x.len() == y.len(),
            x@ == a@,
            y@ == b@,
            i <= x.len(),
            forall|j: int| 0 <= j < i ==> x@[j] == y@[j],
        decreases x.len() - i,
    {
        if x[i] != y[i] {
            return false;
        }
        i += 1;
    }
    proof {
        assert(x@ =~= y@);
    }
    true
}

/// Whether `s` holds the character `c`.
pub fn contains_char(s: &str, c: char) -> (r: bool)
    ensures
        r == s@.contains(c),
{
    let cs = chars_of(s);
    let mut i: usize = 0;
    while i < cs.len()
        invariant
            i <= cs.len(),
            cs@ == s@,
            forall|j: int| 0 <= j < i ==> s@[j] != c,
        decreases cs.len() - i,
    {
        if cs[i] == c {
            return true;
        }
        i += 1;
    }
    false
}

/// Whether `list` holds a string with the text of `s`.
pub fn contains_text(list: &Vec<String>, s: &str) -> (r: bool)
    ensures
        r == texts(list@).contains(s@),
{
    let mut i: usize = 0;
    while i < list.len()
        invariant
            i <= list.len(),
            forall|j: int| 0 <= j < i ==> texts(list@)[j] != s@,
        decreases list.len() - i,
    {
        if same_text(list[i].as_str(), s) {
            proof {
                assert(texts(list@)[i as int] == s@);
            }
            return true;
        }
        i += 1;
    }
    false
}

/// A copy of the strings of a list.
pub fn copy_texts(list: &Vec<String>) -> (out: Vec<String>)
    ensures
        texts(out@) == texts(list@),
{
    let mut out: Vec<String> = Vec::new();
    let mut i: usize = 0;
    while i < list.len()
        invariant
            i <= list.len(),
            texts(out@) == texts(list@).take(i as int),
        decreases list.len() - i,
    {
        let copy = list[i].clone();
        proof {
            assert(texts(out@.push(copy)) =~= texts(out@).push(copy@));
            assert(texts(list@).take(i + 1) =~= texts(list@).take(i as int).push(list@[i as int]@));
        }
        out.push(copy);
        i += 1;
    }
    proof {
        assert(texts(list@).take(list.len() as int) =~= texts(list@));
    }
    out
}

/// The three texts, one after the other.
pub fn text3(a: &str, b: &str, c: &str) -> (r: String)
    ensures
        r@ == a@ + b@ + c@,
{
    let mut r = String::from_str(a);
    r.append(b);
    r.append(c);
    r
}

/// The five texts, one after the other.
pub fn text5(a: &str, b: &str, c: &str, d: &str, e: &str) -> (r: String)
    ensures
        r@ == a@ + b@ + c@ + d@ + e@,
{
    let mut r = text3(a, b, c);
    r.append(d);
    r.append(e);
    r
}

/// `pat` stands in `s` at position `i`.
pub open spec fn occurs_at(s: Seq<char>, pat: Seq<char>, i: int) -> bool {
    &&& 0 <= i
    &&& i + pat.len() <= s.len()
    &&& s.subrange(i, i + pat.len()) == pat
}

/// `pat` stands somewhere in `s`.
pub open spec fn occurs(s: Seq<char>, pat: Seq<char>) -> bool {
    exists|i: int| occurs_at(s, pat, i)
}

/// `i` is the leftmost position at which `pat` stands in `s`.
pub open spec fn first_at(s: Seq<char>, pat: Seq<char>, i: int) -> bool {
    &&& occurs_at(s, pat, i)
    &&& forall|j: int| 0 <= j < i ==> !occurs_at(s, pat, j)
}

/// The leftmost position at which `pat` stands in `s`, where it occurs.
pub open spec fn first_occurrence(s: Seq<char>, pat: Seq<char>) -> int {
    choose|i: int| first_at(s, pat, i)
}

/// What lies before and after the leftmost occurrence of `pat` in `s`.
pub open spec fn split_at_first(s: Seq<char>, pat: Seq<char>) -> Option<(Seq<char>, Seq<char>)> {
    if occurs(s, pat) {
        let i = first_occurrence(s, pat);
        Some((s.take(i), s.skip(i + pat.len())))
    } else {
        None
    }
}

/// `s` without its prefix `pat`, where it begins with it.
pub open spec fn without_prefix(s: Seq<char>, pat: Seq<char>) -> Option<Seq<char>> {
    if occurs_at(s, pat, 0) {
        Some(s.skip(pat.len() as int))
    } else {
        None
    }
}

/// `s` without its suffix `pat`, where it ends with it.
pub open spec fn without_suffix(s: Seq<char>, pat: Seq<char>) -> Option<Seq<char>> {
    if occurs_at(s, pat, s.len() - pat.len()) {
        Some(s.take(s.len() - pat.len()))
    } else {
        None
    }
}

/// The leftmost occurrence is the only position that `first_at` accepts.
pub proof fn lemma_first_at_unique(s: Seq<char>, pat: Seq<char>, i: int)
    requires
        first_at(s, pat, i),
    ensures
        occurs(s, pat),
        first_occurrence(s, pat) == i,
{
    let k = first_occurrence(s, pat);
    assert(first_at(s, pat, k));
    if k < i {
        assert(!occurs_at(s, pat, k));
    }
    if i < k {
        assert(!occurs_at(s, pat, i));
    }
}

/// Where `pat` stands in `s`, it has a leftmost position there.
pub proof fn lemma_first_exists(s: Seq<char>, pat: Seq<char>, k: int)
    requires
        occurs_at(s, pat, k),
    ensures
        exists|i: int| first_at(s, pat, i),
    decreases k,
{
    if exists|j: int| 0 <= j < k && occurs_at(s, pat, j) {
        let j = choose|j: int| 0 <= j < k && occurs_at(s, pat, j);
        lemma_first_exists(s, pat, j);
    } else {
        assert(first_at(s, pat, k));
    }
}

/// A text that is split at the first occurrence of `pat` is its two parts
/// with `pat` between them, and `pat` stands nowhere before the second part
/// begins; and the other way round.
pub proof fn lemma_split_at_first(s: Seq<char>, pat: Seq<char>, a: Seq<char>, b: Seq<char>)
    ensures
        split_at_first(s, pat) == Some((a, b)) <==> (s == a + pat + b && first_at(
            s,
            pat,
            a.len() as int,
        )),
{
    if split_at_first(s, pat) == Some((a, b)) {
        let i = first_occurrence(s, pat);
        let k = choose|k: int| occurs_at(s, pat, k);
        lemma_first_exists(s, pat, k);
        assert(first_at(s, pat, i));
        assert(a == s.take(i));
        assert(s =~= a + pat + b);
    }
    if s == a + pat + b && first_at(s, pat, a.len() as int) {
        lemma_first_at_unique(s, pat, a.len() as int);
        assert(s.take(a.len() as int) =~= a);
        assert(s.skip(a.len() as int + pat.len()) =~= b);
    }
}

/// A text without its prefix `pat` is `t` where it is `pat` followed by
/// `t`.
pub proof fn lemma_without_prefix(s: Seq<char>, pat: Seq<char>, t: Seq<char>)
    ensures
        without_prefix(s, pat) == Some(t) <==> s == pat + t,
{
    if without_prefix(s, pat) == Some(t) {
        assert(s =~= pat + t);
    }
    if s == pat + t {
        assert(s.subrange(0, pat.len() as int) =~= pat);
        assert(s.skip(pat.len() as int) =~= t);
    }
}

/// A text without its suffix `pat` is `t` where it is `t` followed by
/// `pat`.
pub proof fn lemma_without_suffix(s: Seq<char>, pat: Seq<char>, t: Seq<char>)
    ensures
        without_suffix(s, pat) == Some(t) <==> s == t + pat,
{
    if without_suffix(s, pat) == Some(t) {
        assert(s =~= t + pat);
    }
    if s == t + pat {
        assert(s.subrange(s.len() - pat.len(), s.len() as int) =~= pat);
        assert(s.take(s.len() - pat.len()) =~= t);
    }
}

/// Whether `pat` stands in `s` at position `i`.
pub fn matches_at(s: &Vec<char>, pat: &Vec<char>, i: usize) -> (r: bool)
    ensures
        r == occurs_at(s@, pat@, i as int),
{
    if i > s.len() || pat.len() > s.len() - i {
        return false;
    }
    let mut k: usize = 0;
    while k < pat.len()
        invariant
            i + pat.len() <= s.len(),
            k <= pat.len(),
            forall|j: int| 0 <= j < k ==> s@[i + j] == pat@[j],
        decreases pat.len() - k,
    {
        if s[i + k] != pat[k] {
            proof {
                assert(s@.subrange(i as int, i + pat.len())[k as int] == s@[i + k]);
            }
            return false;
        }
        k += 1;
    }
    proof {
        assert(s@.subrange(i as int, i + pat.len()) =~= pat@);
    }
    true
}

/// The leftmost position at which `pat` stands in `s`.
pub fn find(s: &Vec<char>, pat: &Vec<char>) -> (r: Option<usize>)
    ensures
        match r {
            Some(i) => first_at(s@, pat@, i as int),
            None => !occurs(s@, pat@),
        },
{
    let mut i: usize = 0;
    while i < s.len()
        invariant
            i <= s.len(),
            forall|j: int| 0 <= j < i ==> !occurs_at(s@, pat@, j),
        decreases s.len() - i,
    {
        if matches_at(s, pat, i) {
            return Some(i);
        }
        i += 1;
    }
    if matches_at(s, pat, i) {
        Some(i)
    } else {
        None
    }
}

/// Splits `s` at the leftmost occurrence of `pat`, which belongs to neither
/// part.
pub fn split_once<'a>(s: &'a str, pat: &str) -> (r: Option<(&'a str, &'a str)>)
    ensures
        match r {
            Some((a, b)) => split_at_first(s@, pat@) == Some((a@, b@)),
            None => split_at_first(s@, pat@) is None,
        },
{
    let cs = chars_of(s);
    let ps = chars_of(pat);
    match find(&cs, &ps) {
        Some(i) => {
            proof {
                lemma_first_at_unique(s@, pat@, i as int);
            }
            assert(i + ps.len() <= cs.len());
            let a = s.substring_char(0, i);
            let b = s.substring_char(i + ps.len(), cs.len());
            Some((a, b))
        },
        None => None,
    }
}

/// `s` without `pat` at its start, where it begins with it.
pub fn strip_prefix<'a>(s: &'a str, pat: &str) -> (r: Option<&'a str>)
    ensures
        match r {
            Some(t) => without_prefix(s@, pat@) == Some(t@),
            None => without_prefix(s@, pat@) is None,
        },
{
    let cs = chars_of(s);
    let ps = chars_of(pat);
    if matches_at(&cs, &ps, 0) {
        Some(s.substring_char(ps.len(), cs.len()))
    } else {
        None
    }
}

/// `s` without `pat` at its end, where it ends with it.
pub fn strip_suffix<'a>(s: &'a str, pat: &str) -> (r: Option<&'a str>)
    ensures
        match r {
            Some(t) => without_suffix(s@, pat@) == Some(t@),
            None => without_suffix(s@, pat@) is None,
        },
{
    let cs = chars_of(s);
    let ps = chars_of(pat);
    if ps.len() <= cs.len() && matches_at(&cs, &ps, cs.len() - ps.len()) {
        Some(s.substring_char(0, cs.len() - ps.len()))
    } else {
        None
    }
}

/// The length of the longest prefix of `s` that holds no white space.
pub open spec fn word_len(s: Seq<char>) -> int
    decreases s.len(),
{
    if s.len() == 0 || whitespace(s[0]) {
        0
    } else {
        1 + word_len(s.drop_first())
    }
}

/// The maximal runs of characters other than white space in `s`, from left to
/// right.
pub open spec fn words(s: Seq<char>) -> Seq<Seq<char>>
    decreases s.len(),
{
    if s.len() == 0 {
        Seq::empty()
    } else if whitespace(s[0]) {
        words(s.drop_first())
    } else {
        let n = word_len(s);
        if 0 < n <= s.len() {
            seq![s.take(n)] + words(s.skip(n))
        } else {
            Seq::empty()
        }
    }
}

/// The word at the start of a text ends within the text, holds no white
/// space, and is followed by white space or by the end.
pub proof fn lemma_word_len(s: Seq<char>)
    ensures
        0 <= word_len(s) <= s.len(),
        s.len() > 0 && !whitespace(s[0]) ==> word_len(s) > 0,
        forall|i: int| 0 <= i < word_len(s) ==> !whitespace(#[trigger] s[i]),
        word_len(s) < s.len() ==> whitespace(s[word_len(s)]),
    decreases s.len(),
{
    if s.len() == 0 || whitespace(s[0]) {
    } else {
        let t = s.drop_first();
        lemma_word_len(t);
        assert forall|i: int| 0 <= i < word_len(s) implies !whitespace(#[trigger] s[i]) by {
            if i > 0 {
                assert(s[i] == t[i - 1]);
            }
        }
        if word_len(s) < s.len() {
            assert(s[word_len(s)] == t[word_len(t)]);
        }
    }
}

/// The words of a text are not empty and hold no white space.
pub proof fn law_words(s: Seq<char>, k: int)
    requires
        0 <= k < words(s).len(),
    ensures
        words(s)[k].len() > 0,
        forall|i: int| 0 <= i < words(s)[k].len() ==> !whitespace(#[trigger] words(s)[k][i]),
    decreases s.len(),
{
    if s.len() == 0 {
    } else if whitespace(s[0]) {
        law_words(s.drop_first(), k);
    } else {
        let n = word_len(s);
        lemma_word_len(s);
        let rest = words(s.skip(n));
        assert(words(s) == seq![s.take(n)] + rest);
        if k == 0 {
            assert(words(s)[0] == s.take(n));
            assert forall|i: int| 0 <= i < words(s)[k].len() implies !whitespace(
                #[trigger] words(s)[k][i],
            ) by {
                assert(s.take(n)[i] == s[i]);
            }
        } else {
            assert(words(s)[k] == rest[k - 1]);
            law_words(s.skip(n), k - 1);
        }
    }
}

/// The words of `s`: what white space separates.
pub fn split_whitespace<'a>(s: &'a str) -> (r: Vec<&'a str>)
    ensures
        slices(r@) == words(s@),
{
    let cs = chars_of(s);
    let n = cs.len();
    let mut out: Vec<&'a str> = Vec::new();
    let mut i: usize = 0;
    proof {
        assert(s@.skip(0) =~= s@);
        assert(slices(out@) + words(s@) =~= words(s@));
    }
    while i < n
        invariant
            i <= n,
            n == cs.len(),
            cs@ == s@,
            slices(out@) + words(s@.skip(i as int)) == words(s@),
        decreases n - i,
    {
        let ghost rest = s@.skip(i as int);
        if cs[i].is_whitespace() {
            proof {
                assert(rest.drop_first() =~= s@.skip(i + 1));
            }
            i += 1;
        } else {
            let mut j: usize = i + 1;
            proof {
                assert(rest.drop_first() =~= s@.skip(i + 1));
            }
            while j < n && !cs[j].is_whitespace()
                invariant
                    i < j <= n,
                    n == cs.len(),
                    cs@ == s@,
                    rest == s@.skip(i as int),
                    word_len(rest) == (j - i) + word_len(s@.skip(j as int)),
                decreases n - j,
            {
                proof {
                    assert(s@.skip(j as int).drop_first() =~= s@.skip(j + 1));
                }
                j += 1;
            }
            let word = s.substring_char(i, j);
            proof {
                assert(word_len(rest) == j - i);
                assert(rest.take(j - i) =~= s@.subrange(i as int, j as int));
                assert(rest.skip(j - i) =~= s@.skip(j as int));
                assert(slices(out@.push(word)) =~= slices(out@).push(word@));
                assert(slices(out@).push(word@) + words(s@.skip(j as int)) =~= slices(out@) + (
                seq![word@] + words(s@.skip(j as int))));
            }
            out.push(word);
            i = j;
        }
    }
    proof {
        assert(s@.skip(n as int) =~= Seq::<char>::empty());
        assert(slices(out@) + Seq::<Seq<char>>::empty() =~= slices(out@));
    }
    out
}

/// `s` without the characters at its start that are not kept.
pub open spec fn trim_start(s: Seq<char>, dotted: bool) -> Seq<char>
    decreases s.len(),
{
    if s.len() > 0 && !is_kept(s[0], dotted) {
        trim_start(s.drop_first(), dotted)
    } else {
        s
    }
}

/// `s` without the characters at its end that are not kept.
pub open spec fn trim_end(s: Seq<char>, dotted: bool) -> Seq<char>
    decreases s.len(),
{
    if s.len() > 0 && !is_kept(s.last(), dotted) {
        trim_end(s.drop_last(), dotted)
    } else {
        s
    }
}

/// `s` without the characters at either end that are not kept.
pub open spec fn trim(s: Seq<char>, dotted: bool) -> Seq<char> {
    trim_end(trim_start(s, dotted), dotted)
}

/// `s` without the characters at its start that are not kept.
pub fn trim_start_of<'a>(s: &'a str, dotted: bool) -> (r: &'a str)
    ensures
        r@ == trim_start(s@, dotted),
{
    let cs = chars_of(s);
    let mut i: usize = 0;
    proof {
        assert(s@.skip(0) =~= s@);
    }
    while i < cs.len() && !kept(cs[i], dotted)
        invariant
            i <= cs.len(),
            cs@ == s@,
            trim_start(s@, dotted) == trim_start(s@.skip(i as int), dotted),
        decreases cs.len() - i,
    {
        proof {
            assert(s@.skip(i as int).drop_first() =~= s@.skip(i + 1));
        }
        i += 1;
    }
    proof {
        assert(s@.subrange(i as int, cs.len() as int) =~= s@.skip(i as int));
    }
    s.substring_char(i, cs.len())
}

/// `s` without the characters at its end that are not kept.
pub fn trim_end_of<'a>(s: &'a str, dotted: bool) -> (r: &'a str)
    ensures
        r@ == trim_end(s@, dotted),
{
    let cs = chars_of(s);
    let mut n: usize = cs.len();
    proof {
        assert(s@.take(n as int) =~= s@);
    }
    while n > 0 && !kept(cs[n - 1], dotted)
        invariant
            n <= cs.len(),
            cs@ == s@,
            trim_end(s@, dotted) == trim_end(s@.take(n as int), dotted),
        decreases n,
    {
        proof {
            assert(s@.take(n as int).drop_last() =~= s@.take(n - 1));
        }
        n -= 1;
    }
    proof {
        assert(s@.take(cs.len() as int) =~= s@);
        assert(s@.subrange(0, n as int) =~= s@.take(n as int));
    }
    s.substring_char(0, n)
}

/// `s` without the characters at either end that are not kept.
pub fn trim_of<'a>(s: &'a str, dotted: bool) -> (r: &'a str)
    ensures
        r@ == trim(s@, dotted),
{
    trim_end_of(trim_start_of(s, dotted), dotted)
}

/// A list holds a value after a push if it held it before or the value was
/// pushed.
pub proof fn lemma_push_contains<A>(s: Seq<A>, x: A, t: A)
    ensures
        s.push(x).contains(t) <==> (s.contains(t) || x == t),
{
    if s.contains(t) {
        let i = choose|i: int| 0 <= i < s.len() && s[i] == t;
        assert(s.push(x)[i] == t);
    }
    if x == t {
        assert(s.push(x)[s.len() as int] == t);
    }
    if s.push(x).contains(t) {
        let i = choose|i: int| 0 <= i < s.push(x).len() && s.push(x)[i] == t;
        if i < s.len() {
            assert(s[i] == t);
        }
    }
}

/// Two lists in a row hold a value if one of them holds it.
pub proof fn lemma_concat_contains<A>(a: Seq<A>, b: Seq<A>, t: A)
    ensures
        (a + b).contains(t) <==> (a.contains(t) || b.contains(t)),
{
    if a.contains(t) {
        let i = choose|i: int| 0 <= i < a.len() && a[i] == t;
        assert((a + b)[i] == t);
    }
    if b.contains(t) {
        let i = choose|i: int| 0 <= i < b.len() && b[i] == t;
        assert((a + b)[a.len() + i] == t);
    }
    if (a + b).contains(t) {
        let i = choose|i: int| 0 <= i < (a + b).len() && (a + b)[i] == t;
        if i < a.len() {
            assert(a[i] == t);
        } else {
            assert(b[i - a.len()] == t);
        }
    }
}

/// `found`, followed by the names of `more` that are new, each once, in the
/// order in which they first come.
pub open spec fn with_new(found: Seq<Seq<char>>, more: Seq<Seq<char>>) -> Seq<Seq<char>>
    decreases more.len(),
{
    if more.len() == 0 {
        found
    } else {
        let before = with_new(found, more.drop_last());
        if before.contains(more.last()) {
            before
        } else {
            before.push(more.last())
        }
    }
}

/// Adding the new names of two runs is adding those of the first, then those
/// of the second.
pub proof fn lemma_with_new_concat(found: Seq<Seq<char>>, a: Seq<Seq<char>>, b: Seq<Seq<char>>)
    ensures
        with_new(found, a + b) == with_new(with_new(found, a), b),
    decreases b.len(),
{
    if b.len() == 0 {
        assert(a + b =~= a);
    } else {
        lemma_with_new_concat(found, a, b.drop_last());
        assert((a + b).drop_last() =~= a + b.drop_last());
        assert((a + b).last() == b.last());
    }
}

/// Adding the new names of a list keeps the names apart, and the result
/// holds the names that were there and those of the list.
pub proof fn lemma_with_new_holds(found: Seq<Seq<char>>, more: Seq<Seq<char>>)
    ensures
        found.no_duplicates() ==> with_new(found, more).no_duplicates(),
        forall|t: Seq<char>| #[trigger]
            with_new(found, more).contains(t) <==> (found.contains(t) || more.contains(t)),
    decreases more.len(),
{
    if more.len() == 0 {
        assert forall|t: Seq<char>| !more.contains(t) by {}
    } else {
        let front = more.drop_last();
        let before = with_new(found, front);
        lemma_with_new_holds(found, front);
        assert forall|t: Seq<char>| #[trigger]
            with_new(found, more).contains(t) <==> (found.contains(t) || more.contains(t)) by {
            assert(front.push(more.last()) =~= more);
            lemma_push_contains(front, more.last(), t);
            lemma_push_contains(before, more.last(), t);
            assert(before.contains(t) <==> (found.contains(t) || front.contains(t)));
        }
    }
}

/// Adds `name` at the end of `tables` unless it is there.
pub fn push_new(tables: &mut Vec<String>, name: &str)
    ensures
        texts(final(tables)@) == with_new(texts(old(tables)@), seq![name@]),
{
    proof {
        let one = seq![name@];
        assert(one.drop_last() =~= Seq::<Seq<char>>::empty());
        assert(with_new(texts(tables@), Seq::<Seq<char>>::empty()) == texts(tables@));
    }
    if !contains_text(tables, name) {
        let owned = String::from_str(name);
        proof {
            assert(texts(tables@.push(owned)) =~= texts(tables@).push(name@));
        }
        tables.push(owned);
    }
}

/// The strings of a list, each once, in the order in which they first come.
pub fn distinct_texts(list: &Vec<String>) -> (out: Vec<String>)
    ensures
        texts(out@) == with_new(Seq::empty(), texts(list@)),
        texts(out@).no_duplicates(),
        texts(out@).to_set() == texts(list@).to_set(),
{
    let ghost none = Seq::<Seq<char>>::empty();
    let mut out: Vec<String> = Vec::new();
    let mut k: usize = 0;
    proof {
        assert(texts(out@) =~= with_new(none, texts(list@).take(0)));
    }
    while k < list.len()
        invariant
            k <= list.len(),
            none == Seq::<Seq<char>>::empty(),
            texts(out@) == with_new(none, texts(list@).take(k as int)),
        decreases list.len() - k,
    {
        push_new(&mut out, list[k].as_str());
        proof {
            let seen = texts(list@).take(k as int);
            let one = seq![list@[k as int]@];
            lemma_with_new_concat(none, seen, one);
            assert(seen + one =~= texts(list@).take(k + 1));
        }
        k += 1;
    }
    proof {
        assert(texts(list@).take(list.len() as int) =~= texts(list@));
        lemma_with_new_holds(none, texts(list@));
        assert(none.no_duplicates());
        assert forall|t: Seq<char>| texts(out@).to_set().contains(t) <==> texts(
            list@,
        ).to_set().contains(t) by {
            assert(!none.contains(t));
            assert(with_new(none, texts(list@)).contains(t) <==> texts(list@).contains(t));
        }
        assert(texts(out@).to_set() =~= texts(list@).to_set());
    }
    out
}

/// The texts of a list, with `sep` between two of them.
pub open spec fn joined(list: Seq<Seq<char>>, sep: Seq<char>) -> Seq<char>
    decreases list.len(),
{
    if list.len() == 0 {
        Seq::empty()
    } else if list.len() == 1 {
        list[0]
    } else {
        joined(list.drop_last(), sep) + sep + list.last()
    }
}

/// The texts of a list, with `sep` between two of them.
pub fn join_texts(list: &Vec<String>, sep: &str) -> (r: String)
    ensures
        r@ == joined(texts(list@), sep@),
{
    let ghost all = texts(list@);
    let mut r = String::new();
    let mut i: usize = 0;
    proof {
        assert(all.take(0) =~= Seq::<Seq<char>>::empty());
    }
    while i < list.len()
        invariant
            i <= list.len(),
            all == texts(list@),
            r@ == joined(all.take(i as int), sep@),
        decreases list.len() - i,
    {
        proof {
            assert(all.take(i + 1).drop_last() =~= all.take(i as int));
            assert(all.take(i + 1).last() == list@[i as int]@);
            assert(all.take(i + 1)[0] == all[0]);
        }
        if i > 0 {
            r.append(sep);
        } else {
            proof {
                assert(r@ + list@[0]@ =~= list@[0]@);
            }
        }
        r.append(list[i].as_str());
        i += 1;
    }
    proof {
        assert(all.take(list.len() as int) =~= all);
    }
    r
}

/// `a` comes before `b` in the order of texts: at the first place where they
/// differ `a` has the lesser character, or `a` ends there and `b` goes on.
pub open spec fn text_before(a: Seq<char>, b: Seq<char>) -> bool
    decreases a.len(),
{
    if b.len() == 0 {
        false
    } else if a.len() == 0 {
        true
    } else if a[0] != b[0] {
        (a[0] as u32) < (b[0] as u32)
    } else {
        text_before(a.drop_first(), b.drop_first())
    }
}

/// Whether `a` comes before `b` in the order of texts.
pub fn text_less(a: &str, b: &str) -> (r: bool)
    ensures
        r == text_before(a@, b@),
{
    let x = chars_of(a);
    let y = chars_of(b);
    let mut i: usize = 0;
    proof {
        assert(a@.skip(0) =~= a@);
        assert(b@.skip(0) =~= b@);
    }
    while i < x.len() && i < y.len() && x[i] == y[i]
        invariant
            i <= x.len(),
            i <= y.len(),
            x@ == a@,
            y@ == b@,
            text_before(a@, b@) == text_before(a@.skip(i as int), b@.skip(i as int)),
        decreases x.len() - i,
    {
        proof {
            assert(a@.skip(i as int).drop_first() =~= a@.skip(i + 1));
            assert(b@.skip(i as int).drop_first() =~= b@.skip(i + 1));
        }
        i += 1;
    }
    let ghost rest_a = a@.skip(i as int);
    let ghost rest_b = b@.skip(i as int);
    proof {
        assert(rest_a.len() == x.len() - i);
        assert(rest_b.len() == y.len() - i);
        if i < x.len() && i < y.len() {
            assert(rest_a[0] == x@[i as int]);
            assert(rest_b[0] == y@[i as int]);
        }
    }
    if i >= y.len() {
        false
    } else if i >= x.len() {
        true
    } else {
        let ca: char = x[i];
        let cb: char = y[i];
        let r = char_less(ca, cb);
        assert(ca != cb);
        assert(text_before(rest_a, rest_b) == ((ca as u32) < (cb as u32)));
        assert(r == text_before(a@, b@));
        r
    }
}

/// The order of texts passes on: a text before a second one that is before
/// a third one is before the third.
pub proof fn lemma_text_before_passes_on(a: Seq<char>, b: Seq<char>, c: Seq<char>)
    requires
        text_before(a, b),
        text_before(b, c),
    ensures
        text_before(a, c),
    decreases a.len(),
{
    if a.len() > 0 && a[0] == b[0] && b[0] == c[0] {
        lemma_text_before_passes_on(a.drop_first(), b.drop_first(), c.drop_first());
    }
}

/// No text comes before itself.
pub proof fn lemma_text_not_before_itself(a: Seq<char>)
    ensures
        !text_before(a, a),
    decreases a.len(),
{
    if a.len() > 0 {
        lemma_text_not_before_itself(a.drop_first());
    }
}

/// An ordered list with one more text, put before the first text that comes
/// after it.
pub open spec fn inserted(list: Seq<Seq<char>>, x: Seq<char>) -> Seq<Seq<char>>
    decreases list.len(),
{
    if list.len() == 0 {
        seq![x]
    } else if text_before(x, list[0]) {
        seq![x] + list
    } else {
        seq![list[0]] + inserted(list.drop_first(), x)
    }
}

/// The texts of a list in the order of texts.
pub open spec fn sorted(list: Seq<Seq<char>>) -> Seq<Seq<char>>
    decreases list.len(),
{
    if list.len() == 0 {
        Seq::empty()
    } else {
        inserted(sorted(list.drop_last()), list.last())
    }
}

/// A text goes in before the first text that comes after it.
pub proof fn lemma_inserted_at(list: Seq<Seq<char>>, x: Seq<char>, k: int)
    requires
        0 <= k <= list.len(),
        forall|j: int| 0 <= j < k ==> !text_before(x, #[trigger] list[j]),
        k < list.len() ==> text_before(x, list[k]),
    ensures
        inserted(list, x) == list.insert(k, x),
    decreases k,
{
    if k == 0 {
        assert(inserted(list, x) =~= list.insert(0, x));
    } else {
        let rest = list.drop_first();
        assert(!text_before(x, list[0]));
        assert forall|j: int| 0 <= j < k - 1 implies !text_before(x, #[trigger] rest[j]) by {
            assert(rest[j] == list[j + 1]);
        }
        if k < list.len() {
            assert(rest[k - 1] == list[k]);
        }
        lemma_inserted_at(rest, x, k - 1);
        assert(inserted(list, x) =~= list.insert(k, x));
    }
}

/// No text of the list comes before a text that stands before it.
pub open spec fn ordered(list: Seq<Seq<char>>) -> bool {
    forall|i: int, j: int| 0 <= i < j < list.len() ==> !text_before(list[j], list[i])
}

/// A text that goes into an ordered list leaves it ordered, makes it longer
/// by one, and is the one text that the list gains.
pub proof fn lemma_inserted_keeps_order(list: Seq<Seq<char>>, x: Seq<char>)
    requires
        ordered(list),
    ensures
        ordered(inserted(list, x)),
        inserted(list, x).len() == list.len() + 1,
        forall|t: Seq<char>| #[trigger]
            inserted(list, x).contains(t) <==> (list.contains(t) || t == x),
    decreases list.len(),
{
    let out = inserted(list, x);
    if list.len() == 0 {
        assert(out[0] == x);
        assert forall|t: Seq<char>| #[trigger] out.contains(t) <==> (list.contains(t) || t == x) by {
            if out.contains(t) {
                let i = choose|i: int| 0 <= i < out.len() && out[i] == t;
                assert(i == 0);
            }
        }
    } else if text_before(x, list[0]) {
        assert(out =~= seq![x] + list);
        assert forall|i: int, j: int| 0 <= i < j < out.len() implies !text_before(
            out[j],
            out[i],
        ) by {
            if i == 0 {
                let e = list[j - 1];
                assert(out[j] == e);
                if j - 1 > 0 {
                    assert(!text_before(e, list[0]));
                }
                if text_before(e, x) {
                    lemma_text_before_passes_on(e, x, list[0]);
                    lemma_text_not_before_itself(list[0]);
                }
            } else {
                assert(out[i] == list[i - 1] && out[j] == list[j - 1]);
                assert(!text_before(list[j - 1], list[i - 1]));
            }
        }
        assert forall|t: Seq<char>| #[trigger] out.contains(t) <==> (list.contains(t) || t == x) by {
            lemma_concat_contains(seq![x], list, t);
            if seq![x].contains(t) {
                let i = choose|i: int| 0 <= i < seq![x].len() && seq![x][i] == t;
                assert(t == x);
            }
            if t == x {
                assert(seq![x][0] == t);
            }
        }
    } else {
        let rest = list.drop_first();
        let tail = inserted(rest, x);
        assert forall|i: int, j: int| 0 <= i < j < rest.len() implies !text_before(
            rest[j],
            rest[i],
        ) by {
            assert(rest[i] == list[i + 1] && rest[j] == list[j + 1]);
        }
        lemma_inserted_keeps_order(rest, x);
        assert(out =~= seq![list[0]] + tail);
        assert forall|i: int, j: int| 0 <= i < j < out.len() implies !text_before(
            out[j],
            out[i],
        ) by {
            if i == 0 {
                let e = tail[j - 1];
                assert(out[0] == list[0]);
                assert(out[j] == e);
                assert(tail.contains(e));
                assert(rest.contains(e) || e == x);
                if e == x {
                    assert(!text_before(x, list[0]));
                }
                if e != x {
                    assert(rest.contains(e));
                    let k = choose|k: int| 0 <= k < rest.len() && rest[k] == e;
                    assert(list[k + 1] == e);
                    assert(!text_before(list[k + 1], list[0]));
                }
            } else {
                assert(out[i] == tail[i - 1] && out[j] == tail[j - 1]);
                assert(!text_before(tail[j - 1], tail[i - 1]));
            }
        }
        assert forall|t: Seq<char>| #[trigger] out.contains(t) <==> (list.contains(t) || t == x) by {
            lemma_concat_contains(seq![list[0]], tail, t);
            assert(seq![list[0]] + rest =~= list);
            lemma_concat_contains(seq![list[0]], rest, t);
        }
    }
}

/// What `sorted` makes of a list is ordered, as long as the list, and holds
/// the texts that the list holds.
pub proof fn law_sorted(list: Seq<Seq<char>>)
    ensures
        ordered(sorted(list)),
        sorted(list).len() == list.len(),
        forall|t: Seq<char>| #[trigger] sorted(list).contains(t) <==> list.contains(t),
    decreases list.len(),
{
    if list.len() == 0 {
        assert forall|t: Seq<char>| #[trigger] sorted(list).contains(t) <==> list.contains(t) by {}
    } else {
        let front = list.drop_last();
        law_sorted(front);
        lemma_inserted_keeps_order(sorted(front), list.last());
        assert forall|t: Seq<char>| #[trigger] sorted(list).contains(t) <==> list.contains(t) by {
            assert(front.push(list.last()) =~= list);
            lemma_push_contains(front, list.last(), t);
            assert(sorted(front).contains(t) <==> front.contains(t));
        }
    }
}

/// The strings of a list in the order of texts.
pub fn sort_texts(list: &Vec<String>) -> (out: Vec<String>)
    ensures
        texts(out@) == sorted(texts(list@)),
{
    let ghost all = texts(list@);
    let mut out: Vec<String> = Vec::new();
    let mut i: usize = 0;
    proof {
        assert(texts(out@) =~= sorted(all.take(0)));
    }
    while i < list.len()
        invariant
            i <= list.len(),
            all == texts(list@),
            out.len() == i,
            texts(out@) == sorted(all.take(i as int)),
        decreases list.len() - i,
    {
        let x = list[i].clone();
        let mut k: usize = 0;
        while k < out.len() && !text_less(x.as_str(), out[k].as_str())
            invariant
                k <= out.len(),
                forall|j: int| 0 <= j < k ==> !text_before(x@, #[trigger] texts(out@)[j]),
            decreases out.len() - k,
        {
            k += 1;
        }
        proof {
            assert(all.take(i + 1).drop_last() =~= all.take(i as int));
            assert(all.take(i + 1).last() == x@);
            lemma_inserted_at(texts(out@), x@, k as int);
            assert(texts(out@.insert(k as int, x)) =~= texts(out@).insert(k as int, x@));
        }
        out.insert(k, x);
        i += 1;
    }
    proof {
        assert(all.take(list.len() as int) =~= all);
    }
    out
}

/// The digit that stands for a number below ten.
pub open spec fn digit(d: nat) -> Seq<char> {
    if d == 0 {
        "0"@
    } else if d == 1 {
        "1"@
    } else if d == 2 {
        "2"@
    } else if d == 3 {
        "3"@
    } else if d == 4 {
        "4"@
    } else if d == 5 {
        "5"@
    } else if d == 6 {
        "6"@
    } else if d == 7 {
        "7"@
    } else if d == 8 {
        "8"@
    } else {
        "9"@
    }
}

/// A number in decimal digits.
pub open spec fn decimal(n: nat) -> Seq<char>
    decreases n,
{
    if n < 10 {
        digit(n)
    } else {
        decimal(n / 10) + digit(n % 10)
    }
}

/// A number in decimal digits.
pub fn decimal_text(n: u64) -> (r: String)
    ensures
        r@ == decimal(n as nat),
    decreases n,
{
    let d = n % 10;
    let last = if d == 0 {
        "0"
    } else if d == 1 {
        "1"
    } else if d == 2 {
        "2"
    } else if d == 3 {
        "3"
    } else if d == 4 {
        "4"
    } else if d == 5 {
        "5"
    } else if d == 6 {
        "6"
    } else if d == 7 {
        "7"
    } else if d == 8 {
        "8"
    } else {
        "9"
    };
    if n < 10 {
        String::from_str(last)
    } else {
        let mut r = decimal_text(n / 10);
        r.append(last);
        r
    }
}

} // verus!
