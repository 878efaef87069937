//! Text as sequences of characters: the small vocabulary that the rest of the
//! library states its contracts in.

use vstd::prelude::*;
use vstd::string::*;

verus! {

/// The two characters that count as blank inside a link and in a block header.
pub open spec fn is_blank(c: char) -> bool {
    c == ' ' || c == '\t'
}

/// Executable form of [`is_blank`].
pub fn blank(c: char) -> (b: bool)
    ensures
        b == is_blank(c),
{
    c == ' ' || c == '\t'
}

/// All the pieces of `parts` written one after another.
pub open spec fn concat_all(parts: Seq<Seq<char>>) -> Seq<char>
    decreases parts.len(),
{
    if parts.len() == 0 {
        Seq::empty()
    } else {
        concat_all(parts.drop_last()) + parts.last()
    }
}

/// The views of a sequence of string slices.
pub open spec fn views(parts: Seq<&str>) -> Seq<Seq<char>> {
    Seq::new(parts.len(), |i: int| parts[i]@)
}

/// The views of a sequence of owned strings.
pub open spec fn string_views(parts: Seq<String>) -> Seq<Seq<char>> {
    Seq::new(parts.len(), |i: int| parts[i]@)
}

/// The views of a list with one more slice are the views of the list with
/// one more view.
pub proof fn lemma_views_push(parts: Seq<&str>, last: &str)
    ensures
        views(parts.push(last)) == views(parts).push(last@),
{
    assert forall|i: int| 0 <= i < parts.len() + 1 implies views(parts.push(last))[i] == views(
        parts,
    ).push(last@)[i] by {
        if i < parts.len() {
            assert(parts.push(last)[i] == parts[i]);
            assert(views(parts)[i] == parts[i]@);
        }
    }
    assert(views(parts.push(last)) =~= views(parts).push(last@));
}

/// The views of the first `n` slices are the first `n` views.
pub proof fn lemma_views_take(parts: Seq<&str>, n: int)
    requires
        0 <= n <= parts.len(),
    ensures
        views(parts.take(n)) == views(parts).take(n),
{
    assert forall|i: int| 0 <= i < n implies views(parts.take(n))[i] == views(parts).take(n)[i] by {
        assert(parts.take(n)[i] == parts[i]);
        assert(views(parts)[i] == parts[i]@);
    }
    assert(views(parts.take(n)) =~= views(parts).take(n));
}

/// As [`lemma_views_push`], for owned strings.
pub proof fn lemma_string_views_push(parts: Seq<String>, last: String)
    ensures
        string_views(parts.push(last)) == string_views(parts).push(last@),
{
    assert forall|i: int| 0 <= i < parts.len() + 1 implies string_views(parts.push(last))[i]
        == string_views(parts).push(last@)[i] by {
        if i < parts.len() {
            assert(parts.push(last)[i] == parts[i]);
            assert(string_views(parts)[i] == parts[i]@);
        }
    }
    assert(string_views(parts.push(last)) =~= string_views(parts).push(last@));
}

/// `concat_all` distributes over the concatenation of two lists of pieces.
pub proof fn lemma_concat_all_add(a: Seq<Seq<char>>, b: Seq<Seq<char>>)
    ensures
        concat_all(a + b) == concat_all(a) + concat_all(b),
    decreases b.len(),
{
    if b.len() == 0 {
        assert(a + b =~= a);
        assert(concat_all(b) =~= Seq::<char>::empty());
        assert(concat_all(a) + concat_all(b) =~= concat_all(a));
    } else {
        assert((a + b).drop_last() =~= a + b.drop_last());
        assert((a + b).last() == b.last());
        lemma_concat_all_add(a, b.drop_last());
        assert(concat_all(a + b) =~= concat_all(a) + concat_all(b));
    }
}

/// The characters of a string slice, in order.
pub fn chars_of(s: &str) -> (v: Vec<char>)
    ensures
        v@ == s@,
{
    let mut v: Vec<char> = Vec::new();
    for c in it: s.chars()
        invariant
            v@ == it.seq().take(it.index() as int),
            it.seq() == s@,
    {
        v.push(c);
    }
    v
}

/// The string that holds exactly the characters of `chars`, in their order,
/// as `String::from_iter` makes it.
#[verifier::external_body]
pub(crate) fn string_of(chars: &Vec<char>) -> (s: String)
    ensures
        s@ == chars@,
{
    String::from_iter(chars.iter())
}

/// Appends the characters of `more` to `out`.
pub fn push_chars(out: &mut Vec<char>, more: &Vec<char>)
    ensures
        final(out)@ == old(out)@ + more@,
{
    let mut i: usize = 0;
    while i < more.len()
        invariant
            i <= more.len(),
            out@ == old(out)@ + more@.take(i as int),
        decreases more.len() - i,
    {
        out.push(more[i]);
        proof {
            assert(more@.take(i + 1) =~= more@.take(i as int).push(more@[i as int]));
            assert(out@ =~= old(out)@ + more@.take(i + 1));
        }
        i += 1;
    }
    proof {
        assert(more@.take(more.len() as int) =~= more@);
    }
}

/// Whether two string slices hold the same characters.
pub fn str_eq(a: &str, b: &str) -> (r: bool)
    ensures
        r == (a@ == b@),
{
    let left = chars_of(a);
    let right = chars_of(b);
    if left.len() != right.len() {
        return false;
    }
    let mut i: usize = 0;
    while i < left.len()
        invariant
            i <= left.len(),
            left.len() == right.len(),
            left@ == a@,
            right@ == b@,
            forall|j: int| 0 <= j < i ==> left@[j] == right@[j],
        decreases left.len() - i,
    {
        if left[i] != right[i] {
            proof {
                assert(a@[i as int] != b@[i as int]);
            }
            return false;
        }
        i += 1;
    }
    proof {
        assert(left@ =~= right@);
    }
    true
}

/// Appends every piece of `parts` to `out`, in order.
pub fn push_all(out: &mut String, parts: &Vec<&str>)
    ensures
        final(out)@ == old(out)@ + concat_all(views(parts@)),
{
    let mut i: usize = 0;
    while i < parts.len()
        invariant
            i <= parts.len(),
            out@ == old(out)@ + concat_all(views(parts@).take(i as int)),
        decreases parts.len() - i,
    {
        proof {
            let t = views(parts@).take(i as int + 1);
            assert(t.drop_last() =~= views(parts@).take(i as int));
            assert(t.last() == parts@[i as int]@);
        }
        out.append(parts[i]);
        i += 1;
    }
    proof {
        assert(views(parts@).take(parts.len() as int) =~= views(parts@));
    }
}

/// The first position of `name` among `names`, if it is there.
pub fn find_string(names: &Vec<String>, name: &str) -> (at: Option<usize>)
    ensures
        match at {
            Some(i) => {
                &&& i < names.len()
                &&& names[i as int]@ == name@
                &&& forall|j: int| 0 <= j < i ==> names[j]@ != name@
            },
            None => !string_views(names@).contains(name@),
        },
{
    let mut i: usize = 0;
    while i < names.len()
        invariant
            i <= names.len(),
            forall|j: int| 0 <= j < i ==> names[j]@ != name@,
        decreases names.len() - i,
    {
        if str_eq(names[i].as_str(), name) {
            return Some(i);
        }
        i += 1;
    }
    proof {
        assert forall|j: int| 0 <= j < string_views(names@).len() implies string_views(names@)[j]
            != name@ by {
            assert(string_views(names@)[j] == names[j]@);
        }
    }
    None
}

/// The first position of `name` among `names`, if it is there.
pub fn position(names: &Vec<&str>, name: &str) -> (at: Option<usize>)
    ensures
        match at {
            Some(i) => {
                &&& i < names.len()
                &&& names[i as int]@ == name@
                &&& forall|j: int| 0 <= j < i ==> names[j]@ != name@
            },
            None => !views(names@).contains(name@),
        },
{
    let mut i: usize = 0;
    while i < names.len()
        invariant
            i <= names.len(),
            forall|j: int| 0 <= j < i ==> names[j]@ != name@,
        decreases names.len() - i,
    {
        if str_eq(names[i], name) {
            return Some(i);
        }
        i += 1;
    }
    proof {
        assert forall|j: int| 0 <= j < views(names@).len() implies views(names@)[j] != name@ by {
            assert(views(names@)[j] == names[j]@);
        }
    }
    None
}

/// A list without repetition stays so when an element that it does not hold
/// is put at its end.
pub proof fn lemma_push_no_duplicates(stem: Seq<Seq<char>>, next: Seq<char>)
    requires
        stem.no_duplicates(),
        !stem.contains(next),
    ensures
        stem.push(next).no_duplicates(),
{
    let path = stem.push(next);
    assert forall|i: int, j: int| 0 <= i < path.len() && 0 <= j < path.len() && i != j implies path[i] != path[j] by {
        if i < stem.len() {
            assert(path[i] == stem[i]);
        }
        if j < stem.len() {
            assert(path[j] == stem[j]);
        }
    }
}

/// A list without repetition stays so when an element is taken out.
pub proof fn lemma_remove_no_duplicates(list: Seq<Seq<char>>, at: int)
    requires
        list.no_duplicates(),
        0 <= at < list.len(),
    ensures
        list.remove(at).no_duplicates(),
        !list.remove(at).contains(list[at]),
{
    let rest = list.remove(at);
    assert forall|i: int, j: int| 0 <= i < rest.len() && 0 <= j < rest.len() && i != j implies rest[i]
        != rest[j] by {
        let a = if i < at { i } else { i + 1 };
        let b = if j < at { j } else { j + 1 };
        assert(rest[i] == list[a]);
        assert(rest[j] == list[b]);
    }
    assert forall|i: int| 0 <= i < rest.len() implies rest[i] != list[at] by {
        let a = if i < at { i } else { i + 1 };
        assert(rest[i] == list[a]);
    }
}

} // verus!
