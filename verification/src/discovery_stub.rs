//! A discovery that always reports the same interfaces.
use crate::binary_message::strings_view;
use crate::ports::DiscoveryPort;
use vstd::prelude::*;
use vstd::string::*;

verus! {

/// Discovery with a fixed answer: `vcan0`, then `can0`.
#[derive(Debug, Clone, Default)]
pub struct StubDiscovery;

impl StubDiscovery {
    pub fn new() -> (r: Self) {
        StubDiscovery
    }
}

impl DiscoveryPort for StubDiscovery {
    open spec fn reports(&self, listed: Result<Vec<String>, String>) -> bool {
        listed matches Ok(items) && strings_view(items@) == seq![
            seq!['v', 'c', 'a', 'n', '0'],
            seq!['c', 'a', 'n', '0'],
        ]
    }

    fn list_can_ifaces(&self) -> (r: Result<Vec<String>, String>)
        ensures
            r matches Ok(items) && strings_view(items@) == seq![
                seq!['v', 'c', 'a', 'n', '0'],
                seq!['c', 'a', 'n', '0'],
            ],
    {
        let mut items: Vec<String> = Vec::new();
        let first = "vcan0".to_owned();
        let second = "can0".to_owned();
        proof {
            reveal_strlit("vcan0");
            reveal_strlit("can0");
            assert(first@ =~= seq!['v', 'c', 'a', 'n', '0']);
            assert(second@ =~= seq!['c', 'a', 'n', '0']);
        }
        items.push(first);
        items.push(second);
        proof {
            assert(strings_view(items@) =~= seq![
                seq!['v', 'c', 'a', 'n', '0'],
                seq!['c', 'a', 'n', '0'],
            ]);
        }
        Ok(items)
    }
}

} // verus!
