//! The interfaces a connection has subscribed to.
use crate::binary_message::strings_view;
use crate::frame::FrameEvent;
use vstd::prelude::*;

verus! {

/// The set of interface names whose frames a connection receives.
///
/// The names are held in a list whose view is the set they form, so their
/// order and any repeats carry no meaning. A `HashSet<String>` would serve
/// the same set, but vstd models hash-set lookups only for keys whose hashing
/// it axiomatises (integers and `bool`), so no contract over string keys
/// could be proved of it; the list is searched name by name instead.
pub struct Subscriptions {
    ifaces: Vec<String>,
}

impl View for Subscriptions {
    type V = Set<Seq<char>>;

    closed spec fn view(&self) -> Set<Seq<char>> {
        strings_view(self.ifaces@).to_set()
    }
}

impl Subscriptions {
    /// No interface subscribed.
    pub fn new() -> (s: Subscriptions)
        ensures
            s@ == Set::<Seq<char>>::empty(),
    {
        let s = Subscriptions { ifaces: Vec::new() };
        assert(s@ =~= Set::<Seq<char>>::empty()) by {
            assert(strings_view(s.ifaces@) =~= Seq::<Seq<char>>::empty());
        }
        s
    }

    /// Whether frames of `iface` are delivered.
    pub fn contains(&self, iface: &String) -> (r: bool)
        ensures
            r == self@.contains(iface@),
    {
        let mut i: usize = 0;
        while i < self.ifaces.len()
            invariant
                i <= self.ifaces@.len(),
                forall|j: int| 0 <= j < i ==> self.ifaces@[j]@ != iface@,
            decreases self.ifaces.len() - i,
        {
            if self.ifaces[i] == *iface {
                proof {
                    assert(strings_view(self.ifaces@)[i as int] == iface@);
                }
                return true;
            }
            i += 1;
        }
        proof {
            if strings_view(self.ifaces@).contains(iface@) {
                let j = choose|j: int|
                    0 <= j < strings_view(self.ifaces@).len() && strings_view(self.ifaces@)[j]
                        == iface@;
                assert(self.ifaces@[j]@ == iface@);
            }
        }
        false
    }
}

/// Whether a frame goes to a connection: exactly when its interface is subscribed.
pub fn should_send_frame(subscribed: &Subscriptions, frame_event: &FrameEvent) -> (r: bool)
    ensures
        r == subscribed@.contains(frame_event.iface@),
{
    subscribed.contains(&frame_event.iface)
}

/// Makes `ifaces` the whole set of subscribed interfaces.
pub fn update_subscription_set(subscribed: &mut Subscriptions, ifaces: Vec<String>)
    ensures
        final(subscribed)@ == strings_view(ifaces@).to_set(),
{
    subscribed.ifaces = ifaces;
}

/// Unsubscribes from every interface.
pub fn clear_subscription_set(subscribed: &mut Subscriptions)
    ensures
        final(subscribed)@ == Set::<Seq<char>>::empty(),
{
    subscribed.ifaces = Vec::new();
    assert(strings_view(subscribed.ifaces@) =~= Seq::<Seq<char>>::empty());
}

} // verus!
