//! Small general-purpose helpers: a per-field visibility wrapper and a few
//! extension traits for vectors and lists of names.

use vstd::prelude::*;
use vstd::string::StringExecFns;

verus! {

/// Relies on String::push, which appends the given character to the end of
/// the string.
#[verifier::external_body]
pub(crate) fn push_char(s: &mut String, c: char)
    ensures
        final(s)@ == old(s)@.push(c),
{
    s.push(c)
}

/// The separator written before item `i` of `len` listed items: nothing
/// before the first, an "and" (with a comma when more than two items are
/// listed) before the last, a comma otherwise.
pub open spec fn list_separator(i: int, len: int) -> Seq<char> {
    if i == 0 {
        Seq::empty()
    } else if i == len - 1 {
        if i == 1 {
            " and "@
        } else {
            ", and "@
        }
    } else {
        ", "@
    }
}

/// The first `n` of the items listed grammatically: each item after its
/// separator.
pub open spec fn listed(items: Seq<Seq<char>>, n: int) -> Seq<char>
    decreases n,
{
    if n <= 0 {
        Seq::empty()
    } else {
        listed(items, n - 1) + list_separator(n - 1, items.len() as int) + items[n - 1]
    }
}

/// An English listing: "a", "a and b", "a, b, and c".
pub trait ListGrammaticallyExt {
    spec fn items(&self) -> Seq<Seq<char>>;

    fn list_grammatically(&self) -> (r: String)
        ensures
            r@ == listed(self.items(), self.items().len() as int),
    ;
}

impl ListGrammaticallyExt for Vec<String> {
    open spec fn items(&self) -> Seq<Seq<char>> {
        self.deep_view()
    }

    fn list_grammatically(&self) -> (r: String) {
        let ghost items = self.deep_view();
        let n = self.len();
        let mut out = String::new();
        let mut i: usize = 0;
        while i < n
            invariant
                0 <= i <= n,
                n == self@.len(),
                items == self.deep_view(),
                items.len() == n,
                out@ == listed(items, i as int),
            decreases n - i,
        {
            if i != 0 {
                if i == n - 1 {
                    if i == 1 {
                        out.append(" and ");
                    } else {
                        out.append(", and ");
                    }
                } else {
                    out.append(", ");
                }
            }
            out.append(self[i].as_str());
            proof {
                assert(items[i as int] == self@[i as int]@);
            }
            i += 1;
        }
        out
    }
}

/// A value paired with a flag saying whether it is hidden from the players'
/// view. The game master sees every value; hidden ones are masked when the
/// table display is in player-visible mode.
#[derive(Debug, Clone)]
pub struct Hidden<T>(pub T, pub bool);

/// Wraps any value together with a visibility flag.
pub trait MakeHidden: Sized {
    fn hidden(self, hidden: bool) -> (r: Hidden<Self>)
        ensures
            r.0 == self,
            r.1 == hidden,
    ;
}

impl<T: Sized> MakeHidden for T {
    fn hidden(self, hidden: bool) -> (r: Hidden<Self>) {
        Hidden(self, hidden)
    }
}

/// Value-threading helpers: apply a function to a value in the middle of a
/// builder chain, outright or under a condition.
pub trait Tap: Sized {
    fn tap<T, F: FnOnce(Self) -> T>(self, f: F) -> (r: T)
        requires
            f.requires((self,)),
        ensures
            f.ensures((self,), r),
    ;

    fn tap_if<F: FnOnce(Self) -> Self>(self, condition: bool, f: F) -> (r: Self)
        requires
            condition ==> f.requires((self,)),
        ensures
            if condition {
                f.ensures((self,), r)
            } else {
                r == self
            },
    ;

    fn tap_if_some<T, F: FnOnce(Self, T) -> Self>(self, option: Option<T>, f: F) -> (r: Self)
        requires
            option matches Some(t) ==> f.requires((self, t)),
        ensures
            match option {
                Some(t) => f.ensures((self, t), r),
                None => r == self,
            },
    ;
}

impl<S: Sized> Tap for S {
    fn tap<T, F: FnOnce(Self) -> T>(self, f: F) -> (r: T) {
        f(self)
    }

    fn tap_if<F: FnOnce(Self) -> Self>(self, condition: bool, f: F) -> (r: Self) {
        if condition {
            f(self)
        } else {
            self
        }
    }

    fn tap_if_some<T, F: FnOnce(Self, T) -> Self>(self, option: Option<T>, f: F) -> (r: Self) {
        if let Some(t) = option {
            f(self, t)
        } else {
            self
        }
    }
}

/// Removal that tolerates an out-of-range index instead of panicking.
pub trait TryRemoveExt<T> {
    spec fn elems(&self) -> Seq<T>;

    fn try_remove(&mut self, index: usize) -> (r: Option<T>)
        ensures
            index < old(self).elems().len() ==> {
                &&& r == Some(old(self).elems()[index as int])
                &&& final(self).elems() == old(self).elems().remove(index as int)
            },
            index >= old(self).elems().len() ==> {
                &&& r is None
                &&& final(self).elems() == old(self).elems()
            },
    ;
}

impl<T> TryRemoveExt<T> for Vec<T> {
    open spec fn elems(&self) -> Seq<T> {
        self@
    }

    fn try_remove(&mut self, index: usize) -> (r: Option<T>) {
        if index < self.len() {
            Some(self.remove(index))
        } else {
            None
        }
    }
}

} // verus!
