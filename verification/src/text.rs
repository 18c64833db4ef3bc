//! Comparing text.
use vstd::prelude::*;

verus! {

/// The text comes before the other in the order of its characters.
pub open spec fn before(a: Seq<char>, b: Seq<char>) -> bool
    decreases a.len(),
{
    if b.len() == 0 {
        false
    } else if a.len() == 0 {
        true
    } else if a[0] == b[0] {
        before(a.drop_first(), b.drop_first())
    } else {
        (a[0] as int) < (b[0] as int)
    }
}

/// The character, where an ASCII upper case letter is made lower case.
pub open spec fn lower(c: char) -> int {
    if 'A' <= c <= 'Z' {
        c as int + 32
    } else {
        c as int
    }
}

/// The texts differ at most in the case of ASCII letters.
pub open spec fn same_but_for_case(a: Seq<char>, b: Seq<char>) -> bool {
    a.len() == b.len() && forall|i: int| 0 <= i < a.len() ==> lower(#[trigger] a[i]) == lower(b[i])
}

/// The text holds the other at the place.
pub open spec fn holds_at(text: Seq<char>, part: Seq<char>, i: int) -> bool {
    0 <= i && i + part.len() <= text.len() && text.subrange(i, i + part.len()) == part
}

/// The text holds the other somewhere.
pub open spec fn holds(text: Seq<char>, part: Seq<char>) -> bool {
    exists|i: int| holds_at(text, part, i)
}

pub fn chars_of(s: &str) -> (chars: Vec<char>)
    ensures
        chars@ == s@,
{
    let mut chars: Vec<char> = Vec::new();
    for c in it: s.chars()
        invariant
            it.seq() == s@,
            chars@ == s@.take(it.index() as int),
    {
        chars.push(c);
        proof {
            assert(chars@ =~= s@.take(it.index() as int + 1));
        }
    }
    proof {
        assert(s@.take(s@.len() as int) =~= s@);
    }
    chars
}

pub fn same_text(a: &str, b: &str) -> (r: bool)
    ensures
        r == (a@ == b@),
{
    let x = chars_of(a);
    let y = chars_of(b);
    if x.len() != y.len() {
        return false;
    }
    let mut i: usize = 0;
    while i < x.len()
        invariant
            i <= x.len(),
            x.len() == y.len(),
            x@ == a@,
            y@ == b@,
            forall|j: int| 0 <= j < i ==> x@[j] == y@[j],
        decreases x.len() - i,
    {
        if x[i] != y[i] {
            return false;
        }
        i += 1;
    }
    proof {
        assert(a@ =~= b@);
    }
    true
}

fn code_of(c: char) -> (code: u32)
    ensures
        code == c as int,
{
    c as u32
}

pub fn comes_before(a: &str, b: &str) -> (r: bool)
    ensures
        r == before(a@, b@),
{
    let x = chars_of(a);
    let y = chars_of(b);
    let mut i: usize = 0;
    proof {
        assert(x@.skip(0) =~= x@);
        assert(y@.skip(0) =~= y@);
    }
    while i < x.len() && i < y.len()
        invariant
            i <= x.len(),
            i <= y.len(),
            x@ == a@,
            y@ == b@,
            before(a@, b@) == before(x@.skip(i as int), y@.skip(i as int)),
        decreases x.len() - i,
    {
        proof {
            assert(x@.skip(i as int).drop_first() =~= x@.skip(i + 1));
            assert(y@.skip(i as int).drop_first() =~= y@.skip(i + 1));
        }
        if x[i] != y[i] {
            return code_of(x[i]) < code_of(y[i]);
        }
        i += 1;
    }
    i < y.len()
}

fn lower_of(c: char) -> (l: u32)
    ensures
        l == lower(c),
{
    let code: u32 = code_of(c);
    if 65 <= code && code <= 90 {
        code + 32
    } else {
        code
    }
}

pub fn equal_but_for_case(a: &str, b: &str) -> (r: bool)
    ensures
        r == same_but_for_case(a@, b@),
{
    let x = chars_of(a);
    let y = chars_of(b);
    if x.len() != y.len() {
        return false;
    }
    let mut i: usize = 0;
    while i < x.len()
        invariant
            i <= x.len(),
            x.len() == y.len(),
            x@ == a@,
            y@ == b@,
            forall|j: int| 0 <= j < i ==> lower(#[trigger] a@[j]) == lower(b@[j]),
        decreases x.len() - i,
    {
        if lower_of(x[i]) != lower_of(y[i]) {
            proof {
                assert(lower(a@[i as int]) != lower(b@[i as int]));
            }
            return false;
        }
        i += 1;
    }
    true
}

fn part_at(x: &Vec<char>, y: &Vec<char>, i: usize) -> (r: bool)
    requires
        i + y.len() <= x.len(),
    ensures
        r == holds_at(x@, y@, i as int),
{
    let mut j: usize = 0;
    while j < y.len()
        invariant
            j <= y.len(),
            i + y.len() <= x.len(),
            forall|k: int| 0 <= k < j ==> x@[i + k] == y@[k],
        decreases y.len() - j,
    {
        if x[i + j] != y[j] {
            proof {
                assert(x@.subrange(i as int, i + y.len())[j as int] == x@[i + j]);
            }
            return false;
        }
        j += 1;
    }
    proof {
        assert(x@.subrange(i as int, i + y.len()) =~= y@);
    }
    true
}

pub fn contains_text(text: &str, part: &str) -> (r: bool)
    ensures
        r == holds(text@, part@),
{
    let x = chars_of(text);
    let y = chars_of(part);
    if y.len() > x.len() {
        return false;
    }
    let last: usize = x.len() - y.len();
    let mut i: usize = 0;
    while i <= last
        invariant
            i <= last + 1,
            last == x.len() - y.len(),
            x@ == text@,
            y@ == part@,
            forall|k: int| 0 <= k < i ==> !holds_at(text@, part@, k),
        decreases last + 1 - i,
    {
        if part_at(&x, &y, i) {
            return true;
        }
        if i == last {
            proof {
                assert forall|k: int| !holds_at(text@, part@, k) by {}
            }
            return false;
        }
        i += 1;
    }
    false
}

/// Text is ordered: of two texts that differ, exactly one comes first.
pub proof fn text_is_ordered(a: Seq<char>, b: Seq<char>)
    ensures
        !(before(a, b) && before(b, a)),
        a == b || before(a, b) || before(b, a),
        a == b ==> !before(a, b),
    decreases a.len(),
{
    if a.len() > 0 && b.len() > 0 && a[0] == b[0] {
        text_is_ordered(a.drop_first(), b.drop_first());
        if a.drop_first() == b.drop_first() {
            assert(a =~= seq![a[0]] + a.drop_first());
            assert(b =~= seq![b[0]] + b.drop_first());
        }
    } else if a.len() == 0 && b.len() == 0 {
        assert(a =~= b);
    } else if a.len() > 0 && b.len() > 0 {
        let x: char = a[0];
        let y: char = b[0];
        assert(x as int != y as int);
    }
}

/// The order of text is transitive.
pub proof fn text_order_is_transitive(a: Seq<char>, b: Seq<char>, c: Seq<char>)
    requires
        before(a, b),
        before(b, c),
    ensures
        before(a, c),
    decreases a.len(),
{
    if a.len() > 0 && b.len() > 0 && c.len() > 0 && a[0] == b[0] && b[0] == c[0] {
        text_order_is_transitive(a.drop_first(), b.drop_first(), c.drop_first());
    }
}

/// Case does not matter for ASCII letters alone: an upper case letter counts as
/// its lower case one, and nothing else does.
pub proof fn only_the_case_of_letters_does_not_matter(a: char, b: char)
    ensures
        same_but_for_case(seq![a], seq![b]) <==> {
            ||| a == b
            ||| 65 <= a as int <= 90 && b as int == a as int + 32
            ||| 65 <= b as int <= 90 && a as int == b as int + 32
        },
{
    let x = seq![a];
    let y = seq![b];
    if same_but_for_case(x, y) {
        assert(lower(x[0]) == lower(y[0]));
    }
}

/// Text without regard to case is compared character by character, and texts of
/// different lengths differ.
pub proof fn case_is_ignored_character_by_character(a: Seq<char>, b: Seq<char>)
    ensures
        same_but_for_case(a, b) <==> a.len() == b.len() && forall|i: int|
            0 <= i < a.len() ==> same_but_for_case(seq![#[trigger] a[i]], seq![b[i]]),
        same_but_for_case(a, b) == same_but_for_case(b, a),
        same_but_for_case(a, a),
{
    if same_but_for_case(a, b) {
        assert forall|i: int| 0 <= i < a.len() implies same_but_for_case(seq![#[trigger] a[i]], seq![b[i]]) by {
            assert(lower(a[i]) == lower(b[i]));
        }
        assert forall|i: int| 0 <= i < b.len() implies lower(#[trigger] b[i]) == lower(a[i]) by {
            assert(lower(a[i]) == lower(b[i]));
        }
    }
    if same_but_for_case(b, a) {
        assert forall|i: int| 0 <= i < a.len() implies lower(#[trigger] a[i]) == lower(b[i]) by {
            assert(lower(b[i]) == lower(a[i]));
        }
    }
    if a.len() == b.len() && forall|i: int|
        0 <= i < a.len() ==> same_but_for_case(seq![#[trigger] a[i]], seq![b[i]]) {
        assert forall|i: int| 0 <= i < a.len() implies lower(#[trigger] a[i]) == lower(b[i]) by {
            let x = seq![a[i]];
            let y = seq![b[i]];
            assert(same_but_for_case(x, y));
            assert(lower(x[0]) == lower(y[0]));
        }
    }
}

/// Text holds every text that it is put together with.
pub proof fn text_holds_its_parts(front: Seq<char>, part: Seq<char>, back: Seq<char>)
    ensures
        holds(front + part + back, part),
{
    let text = front + part + back;
    let i = front.len() as int;
    assert(text.subrange(i, i + part.len()) =~= part);
    assert(holds_at(text, part, i));
}

/// Text comes before another if that goes on where it ends, or has a greater
/// character where they first differ.
pub proof fn first_difference_gives_the_order(common: Seq<char>, a: Seq<char>, b: Seq<char>)
    requires
        b.len() > 0,
        a.len() > 0 ==> (a[0] as int) < (b[0] as int),
    ensures
        before(common + a, common + b),
        !before(common + b, common + a),
    decreases common.len(),
{
    if common.len() == 0 {
        assert(common + a =~= a);
        assert(common + b =~= b);
    } else {
        let rest = common.drop_first();
        first_difference_gives_the_order(rest, a, b);
        assert((common + a).drop_first() =~= rest + a);
        assert((common + b).drop_first() =~= rest + b);
    }
}

/// Text that holds another can be taken apart around it.
pub proof fn held_text_can_be_cut_out(text: Seq<char>, part: Seq<char>)
    requires
        holds(text, part),
    ensures
        exists|front: Seq<char>, back: Seq<char>| #[trigger] front.add(part).add(back) == text,
{
    let i = choose|i: int| holds_at(text, part, i);
    let front = text.take(i);
    let back = text.skip(i + part.len());
    assert(front.add(part).add(back) =~= text);
}

} // verus!
