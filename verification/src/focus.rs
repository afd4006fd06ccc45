//! Keyboard focus cycling across an ordered row of input fields, and the
//! decision of what the tab key does: the GUI layer reports which field is
//! focused and which keys are down, and applies the answer.

use vstd::prelude::*;

verus! {

/// Where focus goes next in a row of `count` fields: one step forward or
/// back from the focused field, wrapping around; nowhere when no field is
/// focused.
pub fn next_focus(focused: Option<usize>, count: usize, forwards: bool) -> (r: Option<usize>)
    requires
        focused matches Some(i) ==> i < count,
    ensures
        (r is Some) == (focused is Some),
        focused matches Some(i) ==> r matches Some(j) && j as int == (if forwards {
            (i as int + 1) % (count as int)
        } else if i == 0 {
            count as int - 1
        } else {
            i as int - 1
        }),
{
    match focused {
        None => None,
        Some(i) => {
            if forwards {
                let next = if i + 1 == count {
                    0
                } else {
                    i + 1
                };
                proof {
                    if i + 1 == count {
                        vstd::arithmetic::div_mod::lemma_mod_self_0(count as int);
                    } else {
                        vstd::arithmetic::div_mod::lemma_small_mod(
                            (i + 1) as nat,
                            count as nat,
                        );
                    }
                }
                Some(next)
            } else if i == 0 {
                Some(count - 1)
            } else {
                Some(i - 1)
            }
        }
    }
}

/// What the tab key asks for under the given modifiers: a step forward with
/// no modifiers, a step back with shift alone, nothing otherwise or for any
/// other key.
pub fn tab_direction(is_tab: bool, ctrl: bool, alt: bool, shift: bool) -> (r: Option<bool>)
    ensures
        r == if is_tab && !ctrl && !alt {
            Some(!shift)
        } else {
            None::<bool>
        },
{
    if is_tab && !ctrl && !alt {
        Some(!shift)
    } else {
        None
    }
}

} // verus!
