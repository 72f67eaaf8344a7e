//! Searching in text held as a sequence of characters.
use vstd::prelude::*;

verus! {

/// `p` occurs in `h` starting at position `i`.
pub open spec fn matches_at(h: Seq<char>, p: Seq<char>, i: int) -> bool {
    &&& 0 <= i
    &&& i + p.len() <= h.len()
    &&& h.subrange(i, i + p.len()) == p
}

/// `p` occurs somewhere in `h`.
pub open spec fn contains_text(h: Seq<char>, p: Seq<char>) -> bool {
    exists|i: int| matches_at(h, p, i)
}

/// `i` is the first position at or after `from` where `p` occurs in `h`.
pub open spec fn is_first_match(h: Seq<char>, p: Seq<char>, from: int, i: int) -> bool {
    &&& from <= i
    &&& matches_at(h, p, i)
    &&& forall|j: int| from <= j < i ==> !matches_at(h, p, j)
}

/// The first position at or after `from` where `p` occurs in `h`, if any.
pub open spec fn find_spec(h: Seq<char>, p: Seq<char>, from: int) -> Option<int> {
    if exists|i: int| is_first_match(h, p, from, i) {
        Some(choose|i: int| is_first_match(h, p, from, i))
    } else {
        None
    }
}

/// `h` begins with `p`.
pub open spec fn starts_with_text(h: Seq<char>, p: Seq<char>) -> bool {
    p.len() <= h.len() && h.subrange(0, p.len() as int) == p
}

/// Where `p` occurs at or after `from`, it occurs there for a first time.
pub proof fn lemma_first_match_exists(h: Seq<char>, p: Seq<char>, from: int, i: int)
    requires
        from <= i,
        matches_at(h, p, i),
    ensures
        find_spec(h, p, from) is Some,
        from <= find_spec(h, p, from)->0 <= i,
        is_first_match(h, p, from, find_spec(h, p, from)->0),
    decreases i - from,
{
    if exists|j: int| from <= j < i && matches_at(h, p, j) {
        let j = choose|j: int| from <= j < i && matches_at(h, p, j);
        lemma_first_match_exists(h, p, from, j);
    } else {
        assert(is_first_match(h, p, from, i));
    }
}

/// The characters of `s`, in order.
pub fn chars_of(s: &str) -> (r: Vec<char>)
    ensures
        r@ == s@,
{
    let mut r: Vec<char> = Vec::new();
    for c in it: s.chars()
        invariant
            r@ == it.seq().take(it.index()),
    {
        r.push(c);
    }
    r
}

/// Whether `p` occurs in `h` at position `i`.
pub fn matches_here(h: &Vec<char>, p: &Vec<char>, i: usize) -> (r: bool)
    ensures
        r == matches_at(h@, p@, i as int),
{
    if i > h.len() || p.len() > h.len() - i {
        return false;
    }
    let mut k: usize = 0;
    while k < p.len()
        invariant
            i + p.len() <= h.len(),
            k <= p.len(),
            forall|m: int| 0 <= m < k ==> h@[i + m] == p@[m],
        decreases p.len() - k,
    {
        if h[i + k] != p[k] {
            assert(h@.subrange(i as int, i + p.len())[k as int] != p@[k as int]);
            return false;
        }
        k = k + 1;
    }
    assert(h@.subrange(i as int, i + p.len()) =~= p@);
    true
}

/// The first position at or after `from` where `p` occurs in `h`.
pub fn find_from(h: &Vec<char>, p: &Vec<char>, from: usize) -> (r: Option<usize>)
    ensures
        match r {
            Some(i) => find_spec(h@, p@, from as int) == Some(i as int),
            None => find_spec(h@, p@, from as int) is None,
        },
        r matches Some(i) ==> is_first_match(h@, p@, from as int, i as int),
        r is None ==> forall|j: int| from <= j ==> !matches_at(h@, p@, j),
{
    if p.len() > h.len() || from > h.len() - p.len() {
        return None;
    }
    let last = h.len() - p.len();
    let mut i = from;
    while i < last
        invariant
            from <= i <= last,
            last + p.len() == h.len(),
            forall|j: int| from <= j < i ==> !matches_at(h@, p@, j),
        decreases last - i,
    {
        if matches_here(h, p, i) {
            assert(is_first_match(h@, p@, from as int, i as int));
            return Some(i);
        }
        i = i + 1;
    }
    if matches_here(h, p, last) {
        assert(is_first_match(h@, p@, from as int, last as int));
        return Some(last);
    }
    None
}

/// Whether `p` occurs anywhere in `h`.
pub fn contains(h: &Vec<char>, p: &Vec<char>) -> (r: bool)
    ensures
        r == contains_text(h@, p@),
{
    match find_from(h, p, 0) {
        Some(i) => {
            assert(matches_at(h@, p@, i as int));
            true
        },
        None => false,
    }
}

/// Whether `h` begins with `p`.
pub fn starts_with(h: &Vec<char>, p: &Vec<char>) -> (r: bool)
    ensures
        r == starts_with_text(h@, p@),
{
    matches_here(h, p, 0)
}

/// `p` occurs in `h` at some position at or after `from`.
pub open spec fn occurs_from(h: Seq<char>, p: Seq<char>, from: int) -> bool {
    exists|j: int| from <= j && matches_at(h, p, j)
}

/// Whether `p` occurs in `h` at some position at or after `from`.
pub fn occurs_after(h: &Vec<char>, p: &Vec<char>, from: usize) -> (r: bool)
    ensures
        r == occurs_from(h@, p@, from as int),
{
    find_from(h, p, from).is_some()
}

/// The characters of `h` from `start` up to `end`.
pub fn slice_chars(h: &Vec<char>, start: usize, end: usize) -> (r: Vec<char>)
    requires
        start <= end <= h.len(),
    ensures
        r@ == h@.subrange(start as int, end as int),
{
    let mut r: Vec<char> = Vec::new();
    let mut i = start;
    while i < end
        invariant
            start <= i <= end <= h.len(),
            r@ == h@.subrange(start as int, i as int),
        decreases end - i,
    {
        r.push(h[i]);
        i = i + 1;
    }
    r
}

/// What `str::to_lowercase` makes of a text.
pub uninterp spec fn lower_of(s: Seq<char>) -> Seq<char>;

/// Relies on std's `str::to_lowercase`: the result depends on the characters
/// of `s` alone.
#[verifier::external_body]
pub(crate) fn lowercase(s: &str) -> (r: String)
    ensures
        r@ == lower_of(s@),
{
    s.to_lowercase()
}

} // verus!
