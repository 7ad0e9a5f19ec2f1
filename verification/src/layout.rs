//! The fixed alphabet and the `Layout` type: a permutation of the alphabet
//! over the 26 linear positions.

use vstd::prelude::*;

verus! {

/// The number of positions in a layout, which is also the number of symbols
/// in the alphabet.
pub const SLOT_COUNT: usize = 26;

/// The fixed alphabet: the 26 lower-case ASCII letters in natural order.
pub open spec fn alphabet() -> Seq<char> {
    seq![
        'a', 'b', 'c', 'd', 'e', 'f', 'g', 'h', 'i', 'j', 'k', 'l', 'm',
        'n', 'o', 'p', 'q', 'r', 's', 't', 'u', 'v', 'w', 'x', 'y', 'z',
    ]
}

/// A character is a symbol exactly when it belongs to the fixed alphabet.
pub open spec fn is_symbol(c: char) -> bool {
    alphabet().contains(c)
}

/// The sequence obtained from `s` by exchanging the elements at positions
/// `i` and `j`.
pub open spec fn swap_positions(s: Seq<char>, i: int, j: int) -> Seq<char> {
    s.update(i, s[j]).update(j, s[i])
}

/// Exchanging two valid positions does not change which elements a sequence
/// holds, nor how often.
pub proof fn lemma_swap_positions_multiset(s: Seq<char>, i: int, j: int)
    requires
        0 <= i < s.len(),
        0 <= j < s.len(),
    ensures
        swap_positions(s, i, j).to_multiset() == s.to_multiset(),
        swap_positions(s, i, j).len() == s.len(),
{
    broadcast use vstd::seq_lib::group_to_multiset_ensures;

    let s1 = s.update(i, s[j]);
    let s2 = s1.update(j, s[i]);
    if i == j {
        assert(s2 =~= s);
        assert(s2.to_multiset() =~= s.to_multiset());
    } else {
        assert(s1[j] == s[j]);
        assert(s.to_multiset().count(s[i]) > 0);
        assert(s1.to_multiset().count(s[j]) > 0);
        assert(s2.to_multiset() =~= s.to_multiset());
    }
}

/// The alphabet as an executable vector, in natural order.
pub fn alphabet_vec() -> (r: Vec<char>)
    ensures
        r@ == alphabet(),
{
    let mut v: Vec<char> = Vec::new();
    v.push('a');
    v.push('b');
    v.push('c');
    v.push('d');
    v.push('e');
    v.push('f');
    v.push('g');
    v.push('h');
    v.push('i');
    v.push('j');
    v.push('k');
    v.push('l');
    v.push('m');
    v.push('n');
    v.push('o');
    v.push('p');
    v.push('q');
    v.push('r');
    v.push('s');
    v.push('t');
    v.push('u');
    v.push('v');
    v.push('w');
    v.push('x');
    v.push('y');
    v.push('z');
    proof {
        assert(v@ =~= alphabet());
    }
    v
}

/// Decides membership in the alphabet.
pub fn check_symbol(c: char) -> (b: bool)
    ensures
        b == is_symbol(c),
{
    let av = alphabet_vec();
    let mut i: usize = 0;
    while i < SLOT_COUNT
        invariant
            i <= SLOT_COUNT,
            av@ == alphabet(),
            forall|k: int| 0 <= k < i ==> alphabet()[k] != c,
        decreases SLOT_COUNT - i,
    {
        if av[i] == c {
            return true;
        }
        i = i + 1;
    }
    false
}

/// Relies on std's `String::push`: appends the given character to the end of
/// the string.
#[verifier::external_body]
fn push_char(s: &mut String, c: char)
    ensures
        final(s)@ == old(s)@.push(c),
{
    s.push(c)
}

/// An assignment of the 26 symbols to the 26 linear positions.
pub struct Layout {
    slots: Vec<char>,
}

impl View for Layout {
    type V = Seq<char>;

    closed spec fn view(&self) -> Seq<char> {
        self.slots@
    }
}

impl Layout {
    /// A layout is well formed when it is a permutation of the alphabet:
    /// 26 positions, each symbol appearing exactly once.
    pub open spec fn wf(self) -> bool {
        &&& self@.len() == SLOT_COUNT
        &&& self@.to_multiset() == alphabet().to_multiset()
    }

    /// The layout that lists the alphabet in natural order.
    pub fn natural() -> (r: Layout)
        ensures
            r.wf(),
            r@ == alphabet(),
    {
        let slots = alphabet_vec();
        Layout { slots }
    }

    /// Wraps a vector already known to be a permutation of the alphabet.
    pub(crate) fn from_permutation(slots: Vec<char>) -> (r: Layout)
        requires
            slots@.len() == SLOT_COUNT,
            slots@.to_multiset() == alphabet().to_multiset(),
        ensures
            r.wf(),
            r@ == slots@,
    {
        Layout { slots }
    }

    /// The symbol occupying position `i`.
    pub fn symbol_at(&self, i: usize) -> (c: char)
        requires
            i < self@.len(),
        ensures
            c == self@[i as int],
    {
        self.slots[i]
    }

    /// Exchanges the symbols at positions `i` and `j`.
    pub fn swap(&mut self, i: usize, j: usize)
        requires
            i < old(self)@.len(),
            j < old(self)@.len(),
        ensures
            final(self)@ == swap_positions(old(self)@, i as int, j as int),
            old(self).wf() ==> final(self).wf(),
    {
        let a = self.slots[i];
        let b = self.slots[j];
        self.slots.set(i, b);
        self.slots.set(j, a);
        proof {
            lemma_swap_positions_multiset(old(self)@, i as int, j as int);
        }
    }

    /// The position holding symbol `c`, which is its first (and, in a well
    /// formed layout, only) occurrence.
    pub fn position_of(&self, c: char) -> (p: usize)
        requires
            self.wf(),
            is_symbol(c),
        ensures
            p < SLOT_COUNT,
            self@.index_of_first(c) == Some(p as int),
    {
        proof {
            broadcast use vstd::seq_lib::group_to_multiset_ensures;

            assert(alphabet().to_multiset().count(c) > 0);
            assert(self@.contains(c));
            self@.index_of_first_ensures(c);
        }
        let mut i: usize = 0;
        while i < SLOT_COUNT
            invariant
                i <= SLOT_COUNT,
                self.wf(),
                self@.contains(c),
                self@.index_of_first(c) matches Some(idx) && 0 <= idx < SLOT_COUNT
                    && self@[idx] == c && (forall|j: int| 0 <= j < idx ==> self@[j] != c),
                forall|k: int| 0 <= k < i ==> self@[k] != c,
            decreases SLOT_COUNT - i,
        {
            if self.slots[i] == c {
                return i;
            }
            i = i + 1;
        }
        proof {
            assert(false);
        }
        0
    }

    /// The canonical string form of the layout: its symbols in position
    /// order.
    pub fn canonical_string(&self) -> (s: String)
        ensures
            s@ == self@,
    {
        let mut s = String::new();
        let n = self.slots.len();
        let mut i: usize = 0;
        while i < n
            invariant
                i <= n,
                n == self@.len(),
                s@ == self@.take(i as int),
            decreases n - i,
        {
            push_char(&mut s, self.slots[i]);
            proof {
                assert(self@.take(i as int).push(self@[i as int]) =~= self@.take(i + 1));
            }
            i = i + 1;
        }
        proof {
            assert(self@.take(n as int) =~= self@);
        }
        s
    }
}

} // verus!
