//! Text as sequences of characters: the few operations on strings that the
//! rest of the library is stated in, each with its executable counterpart on
//! `Vec<char>`.

use vstd::prelude::*;

verus! {

/// `String::push` appends one character at the end of the string.
pub assume_specification[ String::push ](s: &mut String, ch: char)
    ensures
        final(s)@ == old(s)@.push(ch),
;

/// Whether `c` has the Unicode `White_Space` property.
pub open spec fn is_space(c: char) -> bool {
    let n = c as u32;
    ||| 0x09 <= n <= 0x0D
    ||| n == 0x20
    ||| n == 0x85
    ||| n == 0xA0
    ||| n == 0x1680
    ||| 0x2000 <= n <= 0x200A
    ||| n == 0x2028
    ||| n == 0x2029
    ||| n == 0x202F
    ||| n == 0x205F
    ||| n == 0x3000
}

/// `s` without its leading white space.
pub open spec fn trim_start(s: Seq<char>) -> Seq<char>
    decreases s.len(),
{
    if s.len() > 0 && is_space(s[0]) {
        trim_start(s.skip(1))
    } else {
        s
    }
}

/// `s` without its trailing white space.
pub open spec fn trim_end(s: Seq<char>) -> Seq<char>
    decreases s.len(),
{
    if s.len() > 0 && is_space(s[s.len() - 1]) {
        trim_end(s.take(s.len() - 1))
    } else {
        s
    }
}

/// `s` without leading and trailing white space.
pub open spec fn trim(s: Seq<char>) -> Seq<char> {
    trim_end(trim_start(s))
}

/// `s` without the leading and trailing run of the character `mark`.
pub open spec fn trim_char(s: Seq<char>, mark: char) -> Seq<char>
    decreases s.len(),
{
    if s.len() > 0 && s[0] == mark {
        trim_char(s.skip(1), mark)
    } else if s.len() > 0 && s[s.len() - 1] == mark {
        trim_char(s.take(s.len() - 1), mark)
    } else {
        s
    }
}

/// What follows `prefix` in `s`, where `s` begins with it.
pub open spec fn strip_prefix(s: Seq<char>, prefix: Seq<char>) -> Option<Seq<char>> {
    if prefix.is_prefix_of(s) {
        Some(s.skip(prefix.len() as int))
    } else {
        None
    }
}

/// `s` with every leading repetition of `prefix` removed.
pub open spec fn strip_leading(s: Seq<char>, prefix: Seq<char>) -> Seq<char>
    decreases s.len(),
{
    if prefix.len() > 0 && prefix.is_prefix_of(s) {
        strip_leading(s.skip(prefix.len() as int), prefix)
    } else {
        s
    }
}

/// Whether `pattern` stands in `s` at position `i`.
pub open spec fn occurs_at(s: Seq<char>, pattern: Seq<char>, i: int) -> bool {
    0 <= i && i + pattern.len() <= s.len() && s.subrange(i, i + pattern.len()) == pattern
}

/// The position of the first occurrence of `pattern` in `s`.
pub open spec fn find(s: Seq<char>, pattern: Seq<char>) -> Option<int>
    decreases s.len(),
{
    if occurs_at(s, pattern, 0) {
        Some(0)
    } else if s.len() == 0 {
        None
    } else {
        match find(s.skip(1), pattern) {
            Some(i) => Some(i + 1),
            None => None,
        }
    }
}

/// The position of the first `c` in `s`.
pub open spec fn first_index(s: Seq<char>, c: char) -> Option<int> {
    find(s, seq![c])
}

/// The two sides of the first occurrence of `pattern` in `s`.
pub open spec fn split_once(s: Seq<char>, pattern: Seq<char>) -> Option<(Seq<char>, Seq<char>)> {
    match find(s, pattern) {
        Some(i) => Some((s.take(i), s.skip(i + pattern.len()))),
        None => None,
    }
}

/// The pieces of `s` between the occurrences of `sep`: one more piece than
/// there are separators, so an empty `s` is one empty piece.
pub open spec fn split(s: Seq<char>, sep: char) -> Seq<Seq<char>>
    decreases s.len(),
{
    match first_index(s, sep) {
        Some(i) => if 0 <= i < s.len() {
            seq![s.take(i)] + split(s.skip(i + 1), sep)
        } else {
            seq![s]
        },
        None => seq![s],
    }
}

/// The pieces with `sep` between each two of them.
pub open spec fn join(parts: Seq<Seq<char>>, sep: Seq<char>) -> Seq<char>
    decreases parts.len(),
{
    if parts.len() == 0 {
        Seq::empty()
    } else if parts.len() == 1 {
        parts[0]
    } else {
        join(parts.take(parts.len() - 1), sep) + sep + parts[parts.len() - 1]
    }
}

/// The views of the elements, in order.
pub open spec fn views<T: View>(items: Seq<T>) -> Seq<T::V> {
    Seq::new(items.len(), |i: int| items[i]@)
}

/// Adding an element at the end adds its view at the end.
pub proof fn lemma_views_push<T: View>(items: Seq<T>, item: T)
    ensures
        views(items.push(item)) == views(items).push(item@),
{
    assert(views(items.push(item)) =~= views(items).push(item@));
}

/// The view of what an option holds.
pub open spec fn view_of<T: View>(item: Option<T>) -> Option<T::V> {
    match item {
        Some(t) => Some(t@),
        None => None,
    }
}

/// `s` with every `from` replaced by `to`.
pub open spec fn replace_char(s: Seq<char>, from: char, to: char) -> Seq<char> {
    Seq::new(s.len(), |i: int| if s[i] == from { to } else { s[i] })
}

/// What `find` returns is the least position at which the pattern occurs.
pub proof fn lemma_find(s: Seq<char>, pattern: Seq<char>)
    ensures
        match find(s, pattern) {
            Some(i) => occurs_at(s, pattern, i) && forall|j: int|
                0 <= j < i ==> !occurs_at(s, pattern, j),
            None => forall|j: int| !occurs_at(s, pattern, j),
        },
    decreases s.len(),
{
    if occurs_at(s, pattern, 0) {
    } else if s.len() == 0 {
        assert forall|j: int| !occurs_at(s, pattern, j) by {
            if occurs_at(s, pattern, j) {
                assert(j == 0);
            }
        }
    } else {
        let t = s.skip(1);
        lemma_find(t, pattern);
        assert forall|j: int| occurs_at(s, pattern, j + 1) == occurs_at(t, pattern, j) by {
            if 0 <= j && j + 1 + pattern.len() <= s.len() {
                assert(s.subrange(j + 1, j + 1 + pattern.len()) =~= t.subrange(
                    j,
                    j + pattern.len(),
                ));
            }
        }
        match find(t, pattern) {
            Some(i) => {
                assert(occurs_at(s, pattern, i + 1));
                assert forall|j: int| 0 <= j < i + 1 implies !occurs_at(s, pattern, j) by {
                    if j > 0 {
                        assert(occurs_at(s, pattern, (j - 1) + 1) == occurs_at(t, pattern, j - 1));
                    }
                }
            },
            None => {
                assert forall|j: int| !occurs_at(s, pattern, j) by {
                    if j != 0 {
                        assert(occurs_at(s, pattern, (j - 1) + 1) == occurs_at(t, pattern, j - 1));
                    }
                }
            },
        }
    }
}

/// The least position at which the pattern occurs is what `find` returns.
pub proof fn lemma_find_is(s: Seq<char>, pattern: Seq<char>, i: int)
    requires
        occurs_at(s, pattern, i),
        forall|j: int| 0 <= j < i ==> !occurs_at(s, pattern, j),
    ensures
        find(s, pattern) == Some(i),
{
    lemma_find(s, pattern);
    match find(s, pattern) {
        Some(k) => {
            if k < i {
                assert(!occurs_at(s, pattern, k));
            }
            if i < k {
                assert(!occurs_at(s, pattern, i));
            }
        },
        None => {
            assert(!occurs_at(s, pattern, i));
        },
    }
}

/// A pattern that occurs nowhere is not found.
pub proof fn lemma_find_none(s: Seq<char>, pattern: Seq<char>)
    requires
        forall|j: int| 0 <= j <= s.len() ==> !occurs_at(s, pattern, j),
    ensures
        find(s, pattern) is None,
{
    lemma_find(s, pattern);
    if let Some(k) = find(s, pattern) {
        assert(occurs_at(s, pattern, k));
    }
}

/// A one-character pattern occurs where that character stands.
pub proof fn lemma_occurs_char(s: Seq<char>, c: char, i: int)
    ensures
        occurs_at(s, seq![c], i) <==> (0 <= i < s.len() && s[i] == c),
{
    let p = seq![c];
    assert(p.len() == 1);
    assert(p[0] == c);
    if 0 <= i < s.len() {
        assert(s.subrange(i, i + 1)[0] == s[i]);
        if s[i] == c {
            assert(s.subrange(i, i + 1) =~= p);
        }
    }
}

/// The position that `first_index` returns holds `c`, and no earlier one does.
pub proof fn lemma_first_index(s: Seq<char>, c: char)
    ensures
        match first_index(s, c) {
            Some(i) => 0 <= i < s.len() && s[i] == c && forall|j: int|
                0 <= j < i ==> s[j] != c,
            None => forall|j: int| 0 <= j < s.len() ==> s[j] != c,
        },
{
    lemma_find(s, seq![c]);
    match first_index(s, c) {
        Some(i) => {
            lemma_occurs_char(s, c, i);
            assert forall|j: int| 0 <= j < i implies s[j] != c by {
                lemma_occurs_char(s, c, j);
            }
        },
        None => {
            assert forall|j: int| 0 <= j < s.len() implies s[j] != c by {
                lemma_occurs_char(s, c, j);
            }
        },
    }
}


/// Tells whether a character is white space.
pub fn char_is_space(c: char) -> (r: bool)
    ensures
        r == is_space(c),
{
    let n: u32 = c as u32;
    (0x09 <= n && n <= 0x0D) || n == 0x20 || n == 0x85 || n == 0xA0 || n == 0x1680 || (0x2000 <= n
        && n <= 0x200A) || n == 0x2028 || n == 0x2029 || n == 0x202F || n == 0x205F || n == 0x3000
}

/// The characters of a string slice, in order.
pub fn chars_of(s: &str) -> (v: Vec<char>)
    ensures
        v@ == s@,
{
    let mut v: Vec<char> = Vec::new();
    for c in it: s.chars()
        invariant
            v@ == it.seq().take(it.index() as int),
    {
        v.push(c);
    }
    v
}

/// The string made of the given characters.
pub fn string_of(v: &Vec<char>) -> (s: String)
    ensures
        s@ == v@,
{
    let mut s = String::new();
    let mut i: usize = 0;
    while i < v.len()
        invariant
            i <= v.len(),
            s@ == v@.take(i as int),
        decreases v.len() - i,
    {
        s.push(v[i]);
        i += 1;
    }
    s
}

/// The characters of `v` from position `from` up to, not including, `to`.
pub fn slice(v: &Vec<char>, from: usize, to: usize) -> (r: Vec<char>)
    requires
        from <= to <= v.len(),
    ensures
        r@ == v@.subrange(from as int, to as int),
{
    let mut r: Vec<char> = Vec::new();
    let mut i: usize = from;
    while i < to
        invariant
            from <= i <= to <= v.len(),
            r@ == v@.subrange(from as int, i as int),
        decreases to - i,
    {
        r.push(v[i]);
        i += 1;
    }
    r
}

/// Whether the two hold the same characters.
pub fn same_text(a: &Vec<char>, b: &Vec<char>) -> (r: bool)
    ensures
        r == (a@ == b@),
{
    if a.len() != b.len() {
        return false;
    }
    let mut i: usize = 0;
    while i < a.len()
        invariant
            i <= a.len() == b.len(),
            a@.take(i as int) == b@.take(i as int),
        decreases a.len() - i,
    {
        if a[i] != b[i] {
            return false;
        }
        assert(a@.take(i + 1) =~= a@.take(i as int).push(a@[i as int]));
        assert(b@.take(i + 1) =~= b@.take(i as int).push(b@[i as int]));
        i += 1;
    }
    assert(a@.take(a.len() as int) =~= a@);
    assert(b@.take(b.len() as int) =~= b@);
    true
}

/// Whether the two strings hold the same characters.
pub fn same_str(a: &str, b: &str) -> (r: bool)
    ensures
        r == (a@ == b@),
{
    same_text(&chars_of(a), &chars_of(b))
}

/// Whether `v` holds exactly the characters of `text`.
pub fn is_text(v: &Vec<char>, text: &str) -> (r: bool)
    ensures
        r == (v@ == text@),
{
    let t = chars_of(text);
    same_text(v, &t)
}

/// Removes white space at both ends.
pub fn trimmed(v: &Vec<char>) -> (r: Vec<char>)
    ensures
        r@ == trim(v@),
{
    let n = v.len();
    let mut i: usize = 0;
    assert(v@.skip(0) =~= v@);
    while i < n && char_is_space(v[i])
        invariant
            i <= n == v.len(),
            trim_start(v@) == trim_start(v@.skip(i as int)),
        decreases n - i,
    {
        assert(v@.skip(i as int).skip(1) =~= v@.skip(i + 1));
        i += 1;
    }
    let ghost rest = v@.skip(i as int);
    assert(trim_start(v@) == rest);
    let mut j: usize = n;
    while j > i && char_is_space(v[j - 1])
        invariant
            i <= j <= n == v.len(),
            rest == v@.skip(i as int),
            trim_end(rest) == trim_end(v@.subrange(i as int, j as int)),
        decreases j - i,
    {
        let ghost cur = v@.subrange(i as int, j as int);
        assert(cur[cur.len() - 1] == v@[j - 1]);
        assert(cur.take(cur.len() - 1) =~= v@.subrange(i as int, j - 1));
        j -= 1;
    }
    proof {
        assert(v@.subrange(i as int, n as int) =~= rest);
        let cur = v@.subrange(i as int, j as int);
        if j > i {
            assert(cur[cur.len() - 1] == v@[j - 1]);
        }
        assert(trim_end(cur) == cur);
    }
    slice(v, i, j)
}

/// Removes the run of `mark` at both ends.
pub fn trimmed_of(v: &Vec<char>, mark: char) -> (r: Vec<char>)
    ensures
        r@ == trim_char(v@, mark),
{
    let n = v.len();
    let mut i: usize = 0;
    assert(v@.skip(0) =~= v@);
    while i < n && v[i] == mark
        invariant
            i <= n == v.len(),
            trim_char(v@, mark) == trim_char(v@.skip(i as int), mark),
        decreases n - i,
    {
        assert(v@.skip(i as int).skip(1) =~= v@.skip(i + 1));
        i += 1;
    }
    let mut j: usize = n;
    assert(v@.subrange(i as int, n as int) =~= v@.skip(i as int));
    while j > i && v[j - 1] == mark
        invariant
            i <= j <= n == v.len(),
            i < n ==> v@[i as int] != mark,
            trim_char(v@, mark) == trim_char(v@.subrange(i as int, j as int), mark),
        decreases j - i,
    {
        let ghost cur = v@.subrange(i as int, j as int);
        assert(cur[0] == v@[i as int]);
        assert(cur[cur.len() - 1] == v@[j - 1]);
        assert(cur.take(cur.len() - 1) =~= v@.subrange(i as int, j - 1));
        j -= 1;
    }
    proof {
        let cur = v@.subrange(i as int, j as int);
        if j > i {
            assert(cur[0] == v@[i as int]);
            assert(cur[cur.len() - 1] == v@[j - 1]);
        }
        assert(trim_char(cur, mark) == cur);
    }
    slice(v, i, j)
}

/// Whether `pattern` stands in `v` at position `at`.
pub fn matches_at(v: &Vec<char>, pattern: &Vec<char>, at: usize) -> (r: bool)
    ensures
        r == occurs_at(v@, pattern@, at as int),
{
    let m = pattern.len();
    if at > v.len() || m > v.len() - at {
        return false;
    }
    let mut k: usize = 0;
    while k < m
        invariant
            k <= m == pattern.len(),
            at + m <= v.len(),
            v@.subrange(at as int, at + k) == pattern@.take(k as int),
        decreases m - k,
    {
        if v[at + k] != pattern[k] {
            proof {
                let w = v@.subrange(at as int, at + m);
                assert(w[k as int] == v@[at + k]);
            }
            return false;
        }
        assert(v@.subrange(at as int, at + k + 1) =~= v@.subrange(at as int, at + k).push(
            v@[at + k],
        ));
        assert(pattern@.take(k + 1) =~= pattern@.take(k as int).push(pattern@[k as int]));
        k += 1;
    }
    assert(pattern@.take(m as int) =~= pattern@);
    true
}

/// Whether `v` begins with `prefix`.
pub fn starts_with(v: &Vec<char>, prefix: &Vec<char>) -> (r: bool)
    ensures
        r == prefix@.is_prefix_of(v@),
{
    let r = matches_at(v, prefix, 0);
    proof {
        if prefix@.len() <= v@.len() {
            assert(v@.subrange(0, prefix@.len() as int) =~= v@.take(prefix@.len() as int));
        }
        if prefix@.is_prefix_of(v@) {
            assert(v@.subrange(0, prefix@.len() as int) =~= prefix@);
        }
    }
    r
}

/// Whether `v` ends with `suffix`.
pub fn ends_with(v: &Vec<char>, suffix: &Vec<char>) -> (r: bool)
    ensures
        r == suffix@.is_suffix_of(v@),
{
    if suffix.len() > v.len() {
        return false;
    }
    matches_at(v, suffix, v.len() - suffix.len())
}

/// What follows `prefix` in `v`, if `v` begins with it.
pub fn after_prefix(v: &Vec<char>, prefix: &Vec<char>) -> (r: Option<Vec<char>>)
    ensures
        match r {
            Some(rest) => strip_prefix(v@, prefix@) == Some(rest@),
            None => strip_prefix(v@, prefix@) is None,
        },
{
    if starts_with(v, prefix) {
        let rest = slice(v, prefix.len(), v.len());
        assert(rest@ =~= v@.skip(prefix@.len() as int));
        Some(rest)
    } else {
        None
    }
}

/// Removes every leading repetition of `prefix`.
pub fn after_leading(v: &Vec<char>, prefix: &Vec<char>) -> (r: Vec<char>)
    ensures
        r@ == strip_leading(v@, prefix@),
{
    let n = v.len();
    let m = prefix.len();
    let mut i: usize = 0;
    assert(v@.skip(0) =~= v@);
    if m > 0 {
        while n - i >= m && matches_at(v, prefix, i)
            invariant
                0 < m == prefix.len(),
                i <= n == v.len(),
                strip_leading(v@, prefix@) == strip_leading(v@.skip(i as int), prefix@),
            decreases n - i,
        {
            proof {
                let cur = v@.skip(i as int);
                assert(v@.subrange(i as int, i + m) =~= cur.take(m as int));
                assert(prefix@.is_prefix_of(cur));
                assert(cur.skip(m as int) =~= v@.skip(i + m));
            }
            i += m;
        }
        proof {
            let cur = v@.skip(i as int);
            if prefix@.is_prefix_of(cur) {
                assert(v@.subrange(i as int, i + m) =~= cur.take(m as int));
                assert(occurs_at(v@, prefix@, i as int));
            }
        }
    }
    let r = slice(v, i, n);
    assert(r@ =~= v@.skip(i as int));
    r
}

/// The first position at or after `from` where `pattern` occurs.
pub fn find_from(v: &Vec<char>, pattern: &Vec<char>, from: usize) -> (r: Option<usize>)
    requires
        from <= v.len(),
    ensures
        match r {
            Some(i) => from <= i <= v.len() && find(v@.skip(from as int), pattern@) == Some(
                i - from,
            ),
            None => find(v@.skip(from as int), pattern@) is None,
        },
{
    let n = v.len();
    let ghost rest = v@.skip(from as int);
    let mut i: usize = from;
    loop
        invariant_except_break
            from <= i <= n == v.len(),
            rest == v@.skip(from as int),
            forall|j: int| 0 <= j < i - from ==> !occurs_at(rest, pattern@, j),
        ensures
            forall|j: int| 0 <= j <= rest.len() ==> !occurs_at(rest, pattern@, j),
        decreases n - i,
    {
        let hit = matches_at(v, pattern, i);
        proof {
            if i + pattern@.len() <= n {
                assert(v@.subrange(i as int, i + pattern@.len()) =~= rest.subrange(
                    i - from,
                    i - from + pattern@.len(),
                ));
            }
        }
        if hit {
            proof {
                lemma_find_is(rest, pattern@, i - from);
            }
            return Some(i);
        }
        if i == n {
            break ;
        }
        i += 1;
    }
    proof {
        lemma_find_none(rest, pattern@);
    }
    None
}

/// The first position at or after `from` that holds `c`.
pub fn index_from(v: &Vec<char>, c: char, from: usize) -> (r: Option<usize>)
    requires
        from <= v.len(),
    ensures
        match r {
            Some(i) => from <= i < v.len() && first_index(v@.skip(from as int), c) == Some(
                i - from,
            ),
            None => first_index(v@.skip(from as int), c) is None,
        },
{
    let mut pattern: Vec<char> = Vec::new();
    pattern.push(c);
    assert(pattern@ =~= seq![c]);
    let r = find_from(v, &pattern, from);
    proof {
        lemma_first_index(v@.skip(from as int), c);
    }
    r
}

/// Splits at the first occurrence of `pattern`.
pub fn split_at_first(v: &Vec<char>, pattern: &Vec<char>) -> (r: Option<(Vec<char>, Vec<char>)>)
    ensures
        match r {
            Some((left, right)) => split_once(v@, pattern@) == Some((left@, right@)),
            None => split_once(v@, pattern@) is None,
        },
{
    assert(v@.skip(0) =~= v@);
    match find_from(v, pattern, 0) {
        Some(i) => {
            proof {
                lemma_find(v@, pattern@);
            }
            let left = slice(v, 0, i);
            let right = slice(v, i + pattern.len(), v.len());
            assert(left@ =~= v@.take(i as int));
            assert(right@ =~= v@.skip(i + pattern@.len()));
            Some((left, right))
        },
        None => None,
    }
}

/// Splits at every `sep`.
pub fn split_on(v: &Vec<char>, sep: char) -> (r: Vec<Vec<char>>)
    ensures
        views(r@) == split(v@, sep),
{
    let n = v.len();
    let mut pieces: Vec<Vec<char>> = Vec::new();
    let mut start: usize = 0;
    assert(v@.skip(0) =~= v@);
    assert(views(pieces@) + split(v@, sep) =~= split(v@, sep));
    loop
        invariant_except_break
            start <= n == v.len(),
            split(v@, sep) == views(pieces@) + split(v@.skip(start as int), sep),
        ensures
            views(pieces@) == split(v@, sep),
        decreases n - start,
    {
        let ghost rest = v@.skip(start as int);
        let ghost before = pieces@;
        match index_from(v, sep, start) {
            Some(i) => {
                let piece = slice(v, start, i);
                proof {
                    assert(piece@ =~= rest.take(i - start));
                    assert(rest.skip(i - start + 1) =~= v@.skip(i + 1));
                }
                pieces.push(piece);
                proof {
                    lemma_views_push(before, piece);
                    lemma_first_index(rest, sep);
                    assert(split(rest, sep) == seq![piece@] + split(v@.skip(i + 1), sep));
                    assert(split(v@, sep) =~= views(pieces@) + split(v@.skip(i + 1), sep));
                }
                start = i + 1;
            },
            None => {
                let piece = slice(v, start, n);
                assert(piece@ =~= rest);
                pieces.push(piece);
                proof {
                    lemma_views_push(before, piece);
                    assert(split(rest, sep) == seq![piece@]);
                    assert(split(v@, sep) =~= views(pieces@));
                }
                break ;
            },
        }
    }
    pieces
}

/// Puts `sep` between each two of the pieces.
pub fn joined(parts: &Vec<Vec<char>>, sep: &Vec<char>) -> (r: Vec<char>)
    ensures
        r@ == join(views(parts@), sep@),
{
    let mut r: Vec<char> = Vec::new();
    let mut i: usize = 0;
    while i < parts.len()
        invariant
            i <= parts.len(),
            r@ == join(views(parts@).take(i as int), sep@),
        decreases parts.len() - i,
    {
        let ghost done = views(parts@).take(i as int);
        let ghost next = views(parts@).take(i + 1);
        proof {
            assert(next.take(next.len() - 1) =~= done);
            assert(next[next.len() - 1] == parts@[i as int]@);
        }
        if i > 0 {
            let mut k: usize = 0;
            while k < sep.len()
                invariant
                    k <= sep.len(),
                    r@ == join(done, sep@) + sep@.take(k as int),
                decreases sep.len() - k,
            {
                r.push(sep[k]);
                assert(sep@.take(k + 1) =~= sep@.take(k as int).push(sep@[k as int]));
                k += 1;
            }
            assert(sep@.take(sep.len() as int) =~= sep@);
        } else {
            assert(r@ =~= join(done, sep@) + Seq::<char>::empty());
        }
        let part = &parts[i];
        let ghost base = r@;
        let mut k: usize = 0;
        while k < part.len()
            invariant
                k <= part.len(),
                r@ == base + part@.take(k as int),
            decreases part.len() - k,
        {
            r.push(part[k]);
            assert(part@.take(k + 1) =~= part@.take(k as int).push(part@[k as int]));
            k += 1;
        }
        proof {
            assert(part@.take(part.len() as int) =~= part@);
            if i == 0 {
                assert(next.len() == 1);
                assert(r@ =~= part@);
            }
        }
        i += 1;
    }
    assert(views(parts@).take(parts.len() as int) =~= views(parts@));
    r
}

/// The two strings, one after the other.
pub fn glue(a: &str, b: &str) -> (r: String)
    ensures
        r@ == a@ + b@,
{
    let mut v = chars_of(a);
    let w = chars_of(b);
    let mut i: usize = 0;
    while i < w.len()
        invariant
            i <= w.len(),
            v@ == a@ + w@.take(i as int),
        decreases w.len() - i,
    {
        v.push(w[i]);
        assert(w@.take(i + 1) =~= w@.take(i as int).push(w@[i as int]));
        i += 1;
    }
    assert(w@.take(w.len() as int) =~= w@);
    string_of(&v)
}

/// Replaces every `from` by `to`.
pub fn replaced(v: &Vec<char>, from: char, to: char) -> (r: Vec<char>)
    ensures
        r@ == replace_char(v@, from, to),
{
    let mut r: Vec<char> = Vec::new();
    let mut i: usize = 0;
    while i < v.len()
        invariant
            i <= v.len(),
            r@ == replace_char(v@.take(i as int), from, to),
        decreases v.len() - i,
    {
        let c = v[i];
        r.push(if c == from { to } else { c });
        assert(replace_char(v@.take(i + 1), from, to) =~= replace_char(
            v@.take(i as int),
            from,
            to,
        ).push(if c == from { to } else { c }));
        i += 1;
    }
    assert(v@.take(v.len() as int) =~= v@);
    r
}

} // verus!
