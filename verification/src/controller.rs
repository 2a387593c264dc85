//! Input buttons and the set of buttons held down.

use vstd::prelude::*;

verus! {

/// Input button identifier.
#[derive(Debug, Clone, Copy, PartialEq, Eq, Hash, Structural)]
pub enum Button {
    KeyW,
    KeyA,
    KeyS,
    KeyD,
    KeyQ,
    KeyE,
    Space,
    Shift,
    Escape,
    MouseLeft,
    MouseRight,
}

/// Controller - reports button states.
pub trait Controller {
    /// Check if button is currently down.
    fn is_down(&self, button: Button) -> bool;

    /// All currently pressed buttons.
    fn get_down_keys(&self) -> &[Button];
}

/// The buttons held down, in the order they were pressed, each at most once.
#[derive(Debug)]
pub struct PressedButtons {
    pressed: Vec<Button>,
}

impl PressedButtons {
    #[verifier::type_invariant]
    spec fn each_once(self) -> bool {
        self.pressed@.no_duplicates()
    }

    /// The buttons held down, oldest press first.
    pub closed spec fn spec_pressed(self) -> Seq<Button> {
        self.pressed@
    }

    /// No button held.
    pub fn new() -> (p: Self)
        ensures
            p.spec_pressed() == Seq::<Button>::empty(),
            p.spec_pressed().no_duplicates(),
    {
        Self { pressed: Vec::new() }
    }

    fn position(&self, button: Button) -> (i: Option<usize>)
        ensures
            match i {
                Some(k) => k < self.spec_pressed().len() && self.spec_pressed()[k as int] == button,
                None => !self.spec_pressed().contains(button),
            },
    {
        let mut k: usize = 0;
        while k < self.pressed.len()
            invariant
                k <= self.pressed@.len(),
                forall|j: int| 0 <= j < k ==> self.pressed@[j] != button,
            decreases self.pressed@.len() - k,
        {
            if self.pressed[k] == button {
                return Some(k);
            }
            k = k + 1;
        }
        None
    }

    /// Record a press; returns whether the button was up before.  A button already down
    /// stays where it is.
    pub fn press(&mut self, button: Button) -> (newly: bool)
        ensures
            newly == !old(self).spec_pressed().contains(button),
            final(self).spec_pressed() == if newly {
                old(self).spec_pressed().push(button)
            } else {
                old(self).spec_pressed()
            },
            final(self).spec_pressed().no_duplicates(),
    {
        proof {
            use_type_invariant(&*self);
        }
        match self.position(button) {
            Some(_) => false,
            None => {
                let ghost before = self.pressed@;
                let mut pressed: Vec<Button> = Vec::new();
                std::mem::swap(&mut pressed, &mut self.pressed);
                pressed.push(button);
                proof {
                    assert forall|i: int, j: int| 0 <= i < j < pressed@.len() implies pressed@[i] != pressed@[j] by {
                        if j == before.len() {
                            assert(before.contains(before[i]));
                        }
                    }
                }
                self.pressed = pressed;
                true
            },
        }
    }

    /// Record a release; returns whether the button was down.  The other buttons keep
    /// their order.
    pub fn release(&mut self, button: Button) -> (was_down: bool)
        ensures
            was_down == old(self).spec_pressed().contains(button),
            final(self).spec_pressed() == old(self).spec_pressed().filter(|b: Button| b != button),
            final(self).spec_pressed().no_duplicates(),
    {
        proof {
            use_type_invariant(&*self);
        }
        let ghost before = self.pressed@;
        let was_down = self.position(button).is_some();
        let mut kept: Vec<Button> = Vec::new();
        let mut k: usize = 0;
        while k < self.pressed.len()
            invariant
                before == self.pressed@,
                before.no_duplicates(),
                k <= before.len(),
                kept@ == before.take(k as int).filter(|b: Button| b != button),
                kept@.no_duplicates(),
                forall|x: Button| kept@.contains(x) ==> before.take(k as int).contains(x),
            decreases before.len() - k,
        {
            let b = self.pressed[k];
            let ghost prev = kept@;
            proof {
                reveal(Seq::filter);
                assert(before.take(k + 1).drop_last() =~= before.take(k as int));
                assert(before.take(k + 1).last() == b);
            }
            if b != button {
                proof {
                    assert forall|x: Button| prev.contains(x) implies x != b by {
                        let i = choose|i: int| 0 <= i < k && before.take(k as int)[i] == x;
                        assert(before[i] != before[k as int]);
                    }
                }
                kept.push(b);
                proof {
                    assert forall|i: int, j: int| 0 <= i < j < kept@.len() implies kept@[i] != kept@[j] by {
                        if j == prev.len() {
                            assert(prev.contains(prev[i]));
                        }
                    }
                }
            }
            proof {
                assert forall|x: Button| kept@.contains(x) implies before.take(k + 1).contains(x) by {
                    if x == b {
                        assert(before.take(k + 1)[k as int] == b);
                    } else {
                        let j = choose|j: int| 0 <= j < kept@.len() && kept@[j] == x;
                        assert(prev.contains(x)) by {
                            if j == prev.len() {
                            } else {
                                assert(prev[j] == x);
                            }
                        }
                        let i = choose|i: int| 0 <= i < k && before.take(k as int)[i] == x;
                        assert(before.take(k + 1)[i] == x);
                    }
                }
            }
            k = k + 1;
        }
        assert(before.take(before.len() as int) =~= before);
        self.pressed = kept;
        was_down
    }

    /// Whether `button` is held down.
    pub fn is_down(&self, button: Button) -> (down: bool)
        ensures
            down == self.spec_pressed().contains(button),
    {
        self.position(button).is_some()
    }

    /// The buttons held down, oldest press first.
    pub fn get_down_keys(&self) -> (keys: &[Button])
        ensures
            keys@ == self.spec_pressed(),
            keys@.no_duplicates(),
    {
        proof {
            use_type_invariant(self);
        }
        self.pressed.as_slice()
    }
}

impl Controller for PressedButtons {
    fn is_down(&self, button: Button) -> (down: bool)
        ensures
            down == self.spec_pressed().contains(button),
    {
        PressedButtons::is_down(self, button)
    }

    fn get_down_keys(&self) -> (keys: &[Button])
        ensures
            keys@ == self.spec_pressed(),
            keys@.no_duplicates(),
    {
        PressedButtons::get_down_keys(self)
    }
}

/// Pressing a button that is up and then releasing it restores the previous set of held
/// buttons.
pub proof fn lemma_press_release_roundtrip(held: Seq<Button>, button: Button)
    requires
        !held.contains(button),
    ensures
        held.push(button).filter(|b: Button| b != button) == held,
{
    reveal(Seq::filter);
    assert(held.push(button).drop_last() =~= held);
    lemma_filter_keeps_all(held, button);
}

/// Filtering out a button that does not occur changes nothing.
pub proof fn lemma_filter_keeps_all(held: Seq<Button>, button: Button)
    requires
        !held.contains(button),
    ensures
        held.filter(|b: Button| b != button) == held,
    decreases held.len(),
{
    reveal(Seq::filter);
    if held.len() > 0 {
        assert(!held.drop_last().contains(button)) by {
            if held.drop_last().contains(button) {
                let i = choose|i: int| 0 <= i < held.drop_last().len() && held.drop_last()[i] == button;
                assert(held[i] == button);
            }
        }
        lemma_filter_keeps_all(held.drop_last(), button);
        assert(held.last() != button) by {
            assert(held[held.len() - 1] == held.last());
        }
        assert(held.drop_last().push(held.last()) =~= held);
    }
}

} // verus!
