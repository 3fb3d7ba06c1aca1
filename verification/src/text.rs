//! Text is held as `Vec<char>`, whose view is the sequence of its characters.

use vstd::prelude::*;

verus! {

/// The views of the items of a sequence, in order.
pub open spec fn views<T: View>(s: Seq<T>) -> Seq<T::V> {
    Seq::new(s.len(), |i: int| s[i]@)
}

/// The views of a sequence with one more item.
pub proof fn lemma_views_push<T: View>(s: Seq<T>, x: T)
    ensures
        views(s.push(x)) == views(s).push(x@),
{
    assert(views(s.push(x)) =~= views(s).push(x@));
}

/// The views of a sequence with one item replaced.
pub proof fn lemma_views_update<T: View>(s: Seq<T>, i: int, x: T)
    requires
        0 <= i < s.len(),
    ensures
        views(s.update(i, x)) == views(s).update(i, x@),
{
    assert(views(s.update(i, x)) =~= views(s).update(i, x@));
}

/// A fresh copy of a list of texts.
pub fn copy_texts(a: &Vec<Vec<char>>) -> (r: Vec<Vec<char>>)
    ensures
        views(r@) == views(a@),
{
    let mut r: Vec<Vec<char>> = Vec::new();
    let mut i: usize = 0;
    while i < a.len()
        invariant
            i <= a.len(),
            r@.len() == i,
            forall|j: int| 0 <= j < i ==> r@[j]@ == a@[j]@,
        decreases a.len() - i,
    {
        r.push(copy_text(&a[i]));
        i += 1;
    }
    assert(views(r@) =~= views(a@));
    r
}

/// Whether two lists of texts hold the same texts in the same order.
pub fn texts_eq(a: &Vec<Vec<char>>, b: &Vec<Vec<char>>) -> (r: bool)
    ensures
        r == (views(a@) == views(b@)),
{
    if a.len() != b.len() {
        assert(views(a@).len() != views(b@).len());
        return false;
    }
    let mut i: usize = 0;
    while i < a.len()
        invariant
            i <= a.len(),
            a.len() == b.len(),
            forall|j: int| 0 <= j < i ==> a@[j]@ == b@[j]@,
        decreases a.len() - i,
    {
        if !text_eq(&a[i], &b[i]) {
            assert(views(a@)[i as int] != views(b@)[i as int]);
            return false;
        }
        i += 1;
    }
    assert(views(a@) =~= views(b@));
    true
}

/// The characters of a string slice, in order.
pub fn chars_of(s: &str) -> (v: Vec<char>)
    ensures
        v@ == s@,
{
    let mut v: Vec<char> = Vec::new();
    for c in it: s.chars()
        invariant
            v@ == it.seq().take(it.index as int),
    {
        v.push(c);
    }
    v
}

/// A fresh copy of a text.
pub fn copy_text(a: &Vec<char>) -> (r: Vec<char>)
    ensures
        r@ == a@,
{
    let mut r: Vec<char> = Vec::new();
    let mut i: usize = 0;
    while i < a.len()
        invariant
            i <= a.len(),
            r@ == a@.take(i as int),
        decreases a.len() - i,
    {
        r.push(a[i]);
        i += 1;
    }
    r
}

/// Whether two texts hold the same characters.
pub fn text_eq(a: &Vec<char>, b: &Vec<char>) -> (r: bool)
    ensures
        r == (a@ == b@),
{
    if a.len() != b.len() {
        return false;
    }
    let mut i: usize = 0;
    while i < a.len()
        invariant
            i <= a.len(),
            a.len() == b.len(),
            a@.take(i as int) == b@.take(i as int),
        decreases a.len() - i,
    {
        if a[i] != b[i] {
            return false;
        }
        assert(a@.take(i + 1) == a@.take(i as int).push(a@[i as int]));
        assert(b@.take(i + 1) == b@.take(i as int).push(b@[i as int]));
        i += 1;
    }
    assert(a@ == a@.take(a.len() as int));
    assert(b@ == b@.take(b.len() as int));
    true
}

/// Whether a text spells exactly the given string slice.
pub fn text_is(a: &Vec<char>, s: &str) -> (r: bool)
    ensures
        r == (a@ == s@),
{
    let b = chars_of(s);
    text_eq(a, &b)
}

/// Appends the characters of `other` to `buf`.
pub fn append(buf: &mut Vec<char>, other: &Vec<char>)
    ensures
        final(buf)@ == old(buf)@ + other@,
{
    let mut i: usize = 0;
    while i < other.len()
        invariant
            i <= other.len(),
            buf@ == old(buf)@ + other@.take(i as int),
        decreases other.len() - i,
    {
        buf.push(other[i]);
        assert(other@.take(i + 1) == other@.take(i as int).push(other@[i as int]));
        i += 1;
    }
    assert(other@ == other@.take(other.len() as int));
}

/// Appends the characters of a string slice to `buf`.
pub fn append_str(buf: &mut Vec<char>, s: &str)
    ensures
        final(buf)@ == old(buf)@ + s@,
{
    let other = chars_of(s);
    append(buf, &other);
}

/// The text read back to front.
pub fn reversed(a: &Vec<char>) -> (r: Vec<char>)
    ensures
        r@ == a@.reverse(),
{
    let mut r: Vec<char> = Vec::new();
    let n: usize = a.len();
    let mut i: usize = 0;
    while i < n
        invariant
            i <= n,
            n == a.len(),
            r@.len() == i,
            forall|j: int| 0 <= j < i ==> r@[j] == a@[n - 1 - j],
        decreases n - i,
    {
        r.push(a[n - 1 - i]);
        i += 1;
    }
    assert(r@ =~= a@.reverse());
    r
}

/// Whether a character is white space: one of the characters that have the
/// Unicode property White_Space.
pub open spec fn whitespace_char(c: char) -> bool {
    let n = c as u32;
    (0x9 <= n <= 0xD) || n == 0x20 || n == 0x85 || n == 0xA0 || n == 0x1680 || (0x2000 <= n
        <= 0x200A) || n == 0x2028 || n == 0x2029 || n == 0x202F || n == 0x205F || n == 0x3000
}

/// Whether a character is white space.
pub fn is_whitespace(c: char) -> (r: bool)
    ensures
        r == whitespace_char(c),
{
    let n: u32 = c as u32;
    (0x9 <= n && n <= 0xD) || n == 0x20 || n == 0x85 || n == 0xA0 || n == 0x1680 || (0x2000 <= n
        && n <= 0x200A) || n == 0x2028 || n == 0x2029 || n == 0x202F || n == 0x205F || n
        == 0x3000
}

/// The lower-case form of a text, as `str::to_lowercase` computes it.
pub uninterp spec fn lowercase_of(s: Seq<char>) -> Seq<char>;

/// Calls `str::to_lowercase` on the characters of `a`. The contract names the
/// result.
#[verifier::external_body]
pub(crate) fn to_lowercase(a: &Vec<char>) -> (r: Vec<char>)
    ensures
        r@ == lowercase_of(a@),
{
    let s: String = a.iter().collect();
    s.to_lowercase().chars().collect()
}

/// For each character of a text, whether it is white space.
pub open spec fn white_marks(s: Seq<char>) -> Seq<bool> {
    Seq::new(s.len(), |i: int| whitespace_char(s[i]))
}

/// For each character of a text, whether it is white space.
pub fn mark_white(a: &Vec<char>) -> (r: Vec<bool>)
    ensures
        r@ == white_marks(a@),
{
    let mut r: Vec<bool> = Vec::new();
    let mut i: usize = 0;
    while i < a.len()
        invariant
            i <= a.len(),
            r@.len() == i,
            forall|j: int| 0 <= j < i ==> r@[j] == whitespace_char(a@[j]),
        decreases a.len() - i,
    {
        r.push(is_whitespace(a[i]));
        i += 1;
    }
    assert(r@ =~= white_marks(a@));
    r
}

/// How many marks at the start of a list are set.
pub open spec fn leading(marks: Seq<bool>) -> int
    decreases marks.len(),
{
    if marks.len() == 0 || !marks[0] {
        0
    } else {
        1 + leading(marks.drop_first())
    }
}

/// How many marks at the end of a list are set.
pub open spec fn trailing(marks: Seq<bool>) -> int
    decreases marks.len(),
{
    if marks.len() == 0 || !marks.last() {
        0
    } else {
        1 + trailing(marks.drop_last())
    }
}

/// A text without the characters at its start and at its end whose marks are
/// set; the text itself where the marks are not as many as its characters.
pub open spec fn trimmed_by(s: Seq<char>, marks: Seq<bool>) -> Seq<char> {
    if marks.len() != s.len() {
        s
    } else if leading(marks) + trailing(marks) >= s.len() {
        Seq::empty()
    } else {
        s.subrange(leading(marks), s.len() - trailing(marks))
    }
}

/// The text without its leading and trailing white space.
pub open spec fn trimmed(s: Seq<char>) -> Seq<char> {
    trimmed_by(s, white_marks(s))
}

/// As many marks at the start are set as are set before the first that is
/// not.
proof fn lemma_leading(marks: Seq<bool>, i: int)
    requires
        0 <= i <= marks.len(),
        forall|j: int| 0 <= j < i ==> marks[j],
        i < marks.len() ==> !marks[i],
    ensures
        leading(marks) == i,
    decreases marks.len(),
{
    if i > 0 {
        let t = marks.drop_first();
        assert(marks[0]);
        assert forall|j: int| 0 <= j < i - 1 implies t[j] by {
            assert(t[j] == marks[j + 1]);
        }
        lemma_leading(t, i - 1);
    }
}

/// As many marks at the end are set as are set behind the last that is not.
proof fn lemma_trailing(marks: Seq<bool>, i: int)
    requires
        0 <= i <= marks.len(),
        forall|j: int| marks.len() - i <= j < marks.len() ==> marks[j],
        i < marks.len() ==> !marks[marks.len() - i - 1],
    ensures
        trailing(marks) == i,
    decreases marks.len(),
{
    if i > 0 {
        let t = marks.drop_last();
        assert(marks.last());
        lemma_trailing(t, i - 1);
    }
}

/// A text without the characters at its start and at its end whose marks are
/// set.
pub fn trim_marked(a: &Vec<char>, marks: &Vec<bool>) -> (r: Vec<char>)
    ensures
        r@ == trimmed_by(a@, marks@),
{
    let n: usize = a.len();
    if marks.len() != n {
        return copy_text(a);
    }
    let mut start: usize = 0;
    while start < n && marks[start]
        invariant
            start <= n,
            n == marks.len(),
            forall|j: int| 0 <= j < start ==> marks@[j],
        decreases n - start,
    {
        start += 1;
    }
    let mut end: usize = n;
    while end > start && marks[end - 1]
        invariant
            start <= end <= n,
            n == marks.len(),
            forall|j: int| end <= j < n ==> marks@[j],
        decreases end,
    {
        end -= 1;
    }
    proof {
        lemma_leading(marks@, start as int);
        if end > start {
            lemma_trailing(marks@, n - end);
        } else {
            lemma_trailing_many(marks@, n - end);
        }
    }
    let mut r: Vec<char> = Vec::new();
    let mut i: usize = start;
    assert(a@.subrange(start as int, start as int) =~= Seq::<char>::empty());
    while i < end
        invariant
            start <= i <= end,
            end <= n,
            n == a.len(),
            r@ == a@.subrange(start as int, i as int),
        decreases end - i,
    {
        r.push(a[i]);
        assert(a@.subrange(start as int, i + 1) == a@.subrange(start as int, i as int).push(
            a@[i as int],
        ));
        i += 1;
    }
    r
}

/// Where the last `i` marks are set, at least `i` marks at the end are set.
proof fn lemma_trailing_many(marks: Seq<bool>, i: int)
    requires
        0 <= i <= marks.len(),
        forall|j: int| marks.len() - i <= j < marks.len() ==> marks[j],
    ensures
        trailing(marks) >= i,
    decreases marks.len(),
{
    if i > 0 {
        assert(marks.last());
    }
    if marks.len() > 0 && marks.last() {
        let t = marks.drop_last();
        let k = if i > 0 { i - 1 } else { 0 };
        assert forall|j: int| t.len() - k <= j < t.len() implies t[j] by {
            assert(t[j] == marks[j]);
        }
        lemma_trailing_many(t, k);
    }
}

/// The text without its leading and trailing white space.
pub fn trim(a: &Vec<char>) -> (r: Vec<char>)
    ensures
        r@ == trimmed(a@),
{
    let marks = mark_white(a);
    trim_marked(a, &marks)
}

} // verus!
