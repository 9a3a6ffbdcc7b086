//! Messages that are to be given once.

use vstd::prelude::*;

verus! {

/// The messages that were given already.
pub struct WarnOnce {
    seen: Vec<String>,
}

impl WarnOnce {
    /// The messages that were given already.
    pub closed spec fn spec_seen(&self) -> Set<Seq<char>> {
        Set::new(|message: Seq<char>| exists|i: int| 0 <= i < self.seen@.len() && (#[trigger] self.seen@[i])@ == message)
    }

    /// No message was given yet.
    pub fn new() -> (once: WarnOnce)
        ensures
            once.spec_seen() == Set::<Seq<char>>::empty(),
    {
        let once = WarnOnce { seen: Vec::new() };
        assert(once.spec_seen() =~= Set::<Seq<char>>::empty());
        once
    }

    /// Whether `message` is given for the first time. It counts as given
    /// from now on.
    pub fn first_time(&mut self, message: &str) -> (first: bool)
        ensures
            first == !old(self).spec_seen().contains(message@),
            final(self).spec_seen() == old(self).spec_seen().insert(message@),
    {
        let given = message.to_owned();
        let mut i: usize = 0;
        while i < self.seen.len()
            invariant
                i <= self.seen@.len(),
                given@ == message@,
                *self == *old(self),
                forall|j: int| 0 <= j < i ==> (#[trigger] self.seen@[j])@ != message@,
            decreases self.seen@.len() - i,
        {
            if self.seen[i] == given {
                proof {
                    assert(self.seen@[i as int]@ == message@);
                    assert(self.spec_seen().contains(message@));
                    assert(self.spec_seen() =~= self.spec_seen().insert(message@));
                }
                return false;
            }
            i = i + 1;
        }
        self.seen.push(given);
        proof {
            let last = old(self).seen@.len() as int;
            assert(self.seen@[last]@ == message@);
            assert forall|m: Seq<char>| self.spec_seen().contains(m) <==> old(
                self,
            ).spec_seen().insert(message@).contains(m) by {
                if old(self).spec_seen().contains(m) {
                    let j = choose|j: int|
                        0 <= j < old(self).seen@.len() && (#[trigger] old(self).seen@[j])@ == m;
                    assert(self.seen@[j]@ == m);
                }
                if self.spec_seen().contains(m) {
                    let j = choose|j: int| 0 <= j < self.seen@.len() && (#[trigger] self.seen@[j])@ == m;
                    if j < last {
                        assert(old(self).seen@[j]@ == m);
                    }
                }
            }
            assert(self.spec_seen() =~= old(self).spec_seen().insert(message@));
        }
        true
    }
}

} // verus!
