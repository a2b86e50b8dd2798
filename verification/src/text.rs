use vstd::prelude::*;

verus! {

/// `pattern` stands in `text` starting at index `at`.
pub open spec fn occurs_at(text: Seq<char>, pattern: Seq<char>, at: int) -> bool {
    &&& 0 <= at
    &&& at + pattern.len() <= text.len()
    &&& text.subrange(at, at + pattern.len()) == pattern
}

/// `pattern` stands somewhere in `text` (what `str::contains` answers for a string pattern).
pub open spec fn has_infix(text: Seq<char>, pattern: Seq<char>) -> bool {
    exists|at: int| occurs_at(text, pattern, at)
}

/// `text` with every occurrence of a non-empty `pattern` removed, found from the left
/// without overlap (what `text.replace(pattern, "")` gives).
pub open spec fn strip_all(text: Seq<char>, pattern: Seq<char>) -> Seq<char>
    decreases text.len(),
{
    if pattern.len() == 0 || text.len() == 0 {
        text
    } else if occurs_at(text, pattern, 0) {
        strip_all(text.subrange(pattern.len() as int, text.len() as int), pattern)
    } else {
        seq![text[0]] + strip_all(text.subrange(1, text.len() as int), pattern)
    }
}

/// The characters of `s`, one by one.
pub fn chars_of(s: &str) -> (v: Vec<char>)
    ensures
        v@ == s@,
{
    let n = s.unicode_len();
    let mut v: Vec<char> = Vec::new();
    let mut i: usize = 0;
    while i < n
        invariant
            n == s@.len(),
            i <= n,
            v@ == s@.subrange(0, i as int),
        decreases n - i,
    {
        v.push(s.get_char(i));
        i = i + 1;
    }
    assert(v@ =~= s@);
    v
}

/// Whether `a` and `b` hold the same characters.
pub fn same_chars(a: &Vec<char>, b: &Vec<char>) -> (r: bool)
    ensures
        r == (a@ == b@),
{
    if a.len() != b.len() {
        return false;
    }
    let mut i: usize = 0;
    while i < a.len()
        invariant
            a.len() == b.len(),
            i <= a.len(),
            forall|j: int| 0 <= j < i ==> a@[j] == b@[j],
        decreases a.len() - i,
    {
        if a[i] != b[i] {
            return false;
        }
        i = i + 1;
    }
    assert(a@ =~= b@);
    true
}

/// Whether `pattern` stands in `text` at index `at`.
pub fn matches_at(text: &Vec<char>, pattern: &Vec<char>, at: usize) -> (r: bool)
    ensures
        r == occurs_at(text@, pattern@, at as int),
{
    if at > text.len() || pattern.len() > text.len() - at {
        return false;
    }
    let mut j: usize = 0;
    while j < pattern.len()
        invariant
            at + pattern.len() <= text.len(),
            j <= pattern.len(),
            forall|k: int| 0 <= k < j ==> text@[at + k] == pattern@[k],
        decreases pattern.len() - j,
    {
        if text[at + j] != pattern[j] {
            assert(text@.subrange(at as int, at + pattern.len())[j as int] != pattern@[j as int]);
            return false;
        }
        j = j + 1;
    }
    assert(text@.subrange(at as int, at + pattern.len()) =~= pattern@);
    true
}

/// Whether `pattern` stands somewhere in `text`.
pub fn contains_chars(text: &Vec<char>, pattern: &Vec<char>) -> (r: bool)
    ensures
        r == has_infix(text@, pattern@),
{
    if pattern.len() == 0 {
        assert(text@.subrange(0, 0) =~= pattern@);
        assert(occurs_at(text@, pattern@, 0));
        return true;
    }
    let mut at: usize = 0;
    while at <= text.len() && pattern.len() <= text.len() - at
        invariant
            pattern.len() > 0,
            at <= text.len(),
            forall|k: int| 0 <= k < at ==> !occurs_at(text@, pattern@, k),
        decreases text.len() - at,
    {
        if matches_at(text, pattern, at) {
            return true;
        }
        at = at + 1;
    }
    assert forall|k: int| !occurs_at(text@, pattern@, k) by {
        if 0 <= k && k >= at {
            assert(k + pattern.len() > text.len());
        }
    }
    false
}

/// Whether the character `c` stands in `text`.
pub fn contains_char(text: &str, c: char) -> (r: bool)
    ensures
        r == text@.contains(c),
{
    let chars = chars_of(text);
    let mut i: usize = 0;
    while i < chars.len()
        invariant
            chars@ == text@,
            i <= chars.len(),
            forall|k: int| 0 <= k < i ==> chars@[k] != c,
        decreases chars.len() - i,
    {
        if chars[i] == c {
            return true;
        }
        i = i + 1;
    }
    false
}

proof fn lemma_occurs_shift(text: Seq<char>, pattern: Seq<char>, i: int)
    requires
        0 <= i <= text.len(),
    ensures
        occurs_at(text.subrange(i, text.len() as int), pattern, 0) == occurs_at(text, pattern, i),
{
    if i + pattern.len() <= text.len() {
        assert(text.subrange(i, text.len() as int).subrange(0, pattern.len() as int)
            =~= text.subrange(i, i + pattern.len()));
    }
}

/// `text` with every occurrence of `pattern` removed, as `replace(pattern, "")` does.
pub fn strip_chars(text: &Vec<char>, pattern: &Vec<char>) -> (r: Vec<char>)
    ensures
        r@ == strip_all(text@, pattern@),
{
    let mut r: Vec<char> = Vec::new();
    if pattern.len() == 0 {
        let mut k: usize = 0;
        while k < text.len()
            invariant
                k <= text.len(),
                r@ == text@.subrange(0, k as int),
            decreases text.len() - k,
        {
            r.push(text[k]);
            k = k + 1;
        }
        assert(r@ =~= text@);
        return r;
    }
    let n = text.len();
    let mut i: usize = 0;
    assert(text@.subrange(0, n as int) =~= text@);
    while i < n
        invariant
            n == text.len(),
            i <= n,
            pattern.len() > 0,
            r@ + strip_all(text@.subrange(i as int, n as int), pattern@) == strip_all(text@, pattern@),
        decreases n - i,
    {
        let ghost rest = text@.subrange(i as int, n as int);
        proof {
            lemma_occurs_shift(text@, pattern@, i as int);
        }
        if matches_at(text, pattern, i) {
            assert(rest.subrange(pattern.len() as int, rest.len() as int)
                =~= text@.subrange(i + pattern.len(), n as int));
            i = i + pattern.len();
        } else {
            assert(rest.subrange(1, rest.len() as int) =~= text@.subrange(i + 1, n as int));
            assert(rest[0] == text@[i as int]);
            let ghost before = r@;
            r.push(text[i]);
            assert(r@ + strip_all(text@.subrange(i + 1, n as int), pattern@)
                =~= before + (seq![text@[i as int]] + strip_all(text@.subrange(i + 1, n as int), pattern@)));
            i = i + 1;
        }
    }
    assert(text@.subrange(n as int, n as int) =~= Seq::<char>::empty());
    assert(r@ + Seq::<char>::empty() =~= r@);
    r
}

} // verus!
