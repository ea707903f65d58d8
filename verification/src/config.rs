use vstd::prelude::*;

use crate::parser::UnifiedHandshakeFormat;

verus! {

/// The proxy's configuration.
#[derive(Debug)]
pub struct ConfigData {
    /// Port which the proxy listens on
    pub port: u16,
    /// Default server address to forward to.
    pub default: String,
    /// Mapping from hostname to Minecraft server address, as (hostname, address) pairs in which
    /// no hostname occurs twice (see [`ConfigData::wf`]).
    ///
    /// If the hostname is not mapped to or if the handshake is unrecognized, the proxy will forward
    /// it to the `default` server.
    pub servers: Vec<(String, String)>,
}

impl ConfigData {
    /// The server entries form a map: no hostname occurs in two of them.
    pub open spec fn wf(&self) -> bool {
        forall|i: int, j: int|
            0 <= i < j < self.servers@.len() ==> #[trigger] self.servers@[i].0@ != #[trigger] self.servers@[j].0@
    }

    /// The address that a connection is forwarded to: the address of the entry for the
    /// handshake's hostname, or the default address where the hostname has none or the handshake
    /// was not recognized.
    pub open spec fn spec_server_for(&self, hostname: Option<Seq<char>>) -> Seq<char> {
        match hostname {
            Some(h) => if exists|i: int| 0 <= i < self.servers@.len() && #[trigger] self.servers@[i].0@ == h {
                let i = choose|i: int| 0 <= i < self.servers@.len() && #[trigger] self.servers@[i].0@ == h;
                self.servers@[i].1@
            } else {
                self.default@
            },
            None => self.default@,
        }
    }

    /// The server address to forward a connection to, given its handshake (`None` when the
    /// handshake was not recognized).
    pub fn server_for(&self, handshake: Option<&UnifiedHandshakeFormat>) -> (r: &str)
        requires
            self.wf(),
        ensures
            r@ == self.spec_server_for(
                match handshake {
                    Some(h) => Some(h.hostname@),
                    None => None,
                },
            ),
    {
        match handshake {
            None => self.default.as_str(),
            Some(h) => {
                let mut i: usize = 0;
                while i < self.servers.len()
                    invariant
                        self.wf(),
                        handshake == Some(h),
                        i <= self.servers@.len(),
                        forall|j: int| 0 <= j < i ==> #[trigger] self.servers@[j].0@ != h.hostname@,
                    decreases self.servers.len() - i,
                {
                    if self.servers[i].0 == h.hostname {
                        proof {
                            let k = choose|k: int|
                                0 <= k < self.servers@.len() && #[trigger] self.servers@[k].0@
                                    == h.hostname@;
                            assert(self.servers@[i as int].0@ == h.hostname@);
                            if k < i {
                                assert(self.servers@[k].0@ != self.servers@[i as int].0@);
                            } else if k > i {
                                assert(self.servers@[i as int].0@ != self.servers@[k].0@);
                            }
                        }
                        return self.servers[i].1.as_str();
                    }
                    i = i + 1;
                }
                self.default.as_str()
            },
        }
    }
}

} // verus!
