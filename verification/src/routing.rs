//! Routing relations: how this node stands to each peer account, and
//! which accounts should exchange route updates with it.

use vstd::prelude::*;

verus! {

/// The routing relation of an account with its peers.
#[derive(Clone, Copy, Debug, PartialEq, Eq, Structural, PartialOrd, Ord, Hash)]
pub enum RoutingRelation {
    /// An account we neither receive routes from nor broadcast to.
    NonRoutingAccount,
    /// An account we receive routes from but do not broadcast to.
    Parent,
    /// An account we receive routes from and broadcast to.
    Peer,
    /// An account we broadcast to but do not receive routes from.
    Child,
}

/// ASCII lower-casing of one byte.
pub open spec fn lower_byte(b: u8) -> u8 {
    if 65 <= b <= 90 {
        (b + 32) as u8
    } else {
        b
    }
}

/// Case-insensitive equality of byte strings.
pub open spec fn eq_ignore_case(a: Seq<u8>, b: Seq<u8>) -> bool {
    a.len() == b.len() && forall|i: int| 0 <= i < a.len() ==> lower_byte(a[i]) == lower_byte(b[i])
}

/// Compares a name against a keyword, ignoring ASCII case.
fn bytes_eq_ignore_case(a: &[u8], b: &Vec<u8>) -> (r: bool)
    ensures
        r == eq_ignore_case(a@, b@),
{
    if a.len() != b.len() {
        return false;
    }
    let mut i: usize = 0;
    while i < a.len()
        invariant
            i <= a@.len(),
            a@.len() == b@.len(),
            forall|j: int| 0 <= j < i ==> lower_byte(a@[j]) == lower_byte(b@[j]),
        decreases a@.len() - i,
    {
        let x = a[i];
        let y = b[i];
        let lx = if 65 <= x && x <= 90 {
            x + 32
        } else {
            x
        };
        let ly = if 65 <= y && y <= 90 {
            y + 32
        } else {
            y
        };
        if lx != ly {
            return false;
        }
        i = i + 1;
    }
    true
}

/// The lower-case keyword of each relation.
pub open spec fn relation_keyword(r: RoutingRelation) -> Seq<u8> {
    match r {
        RoutingRelation::NonRoutingAccount => seq![
            110u8,
            111,
            110,
            114,
            111,
            117,
            116,
            105,
            110,
            103,
            97,
            99,
            99,
            111,
            117,
            110,
            116,
        ],
        RoutingRelation::Parent => seq![112u8, 97, 114, 101, 110, 116],
        RoutingRelation::Peer => seq![112u8, 101, 101, 114],
        RoutingRelation::Child => seq![99u8, 104, 105, 108, 100],
    }
}

impl RoutingRelation {
    /// The display name of this relation.
    pub fn as_ref(&self) -> (r: &'static str)
        ensures
            r@ == match *self {
                RoutingRelation::NonRoutingAccount => "NonRoutingAccount"@,
                RoutingRelation::Parent => "Parent"@,
                RoutingRelation::Peer => "Peer"@,
                RoutingRelation::Child => "Child"@,
            },
    {
        match self {
            RoutingRelation::NonRoutingAccount => "NonRoutingAccount",
            RoutingRelation::Parent => "Parent",
            RoutingRelation::Peer => "Peer",
            RoutingRelation::Child => "Child",
        }
    }
}

impl core::str::FromStr for RoutingRelation {
    type Err = ();

    /// Parses a relation name, ignoring ASCII case.
    fn from_str(string: &str) -> Result<RoutingRelation, ()> {
        let bytes = string.as_bytes();
        let nonrouting: Vec<u8> = vec![
            110u8, 111, 110, 114, 111, 117, 116, 105, 110, 103, 97, 99, 99, 111, 117, 110, 116,
        ];
        let parent: Vec<u8> = vec![112u8, 97, 114, 101, 110, 116];
        let peer: Vec<u8> = vec![112u8, 101, 101, 114];
        let child: Vec<u8> = vec![99u8, 104, 105, 108, 100];
        if bytes_eq_ignore_case(bytes, &nonrouting) {
            Ok(RoutingRelation::NonRoutingAccount)
        } else if bytes_eq_ignore_case(bytes, &parent) {
            Ok(RoutingRelation::Parent)
        } else if bytes_eq_ignore_case(bytes, &peer) {
            Ok(RoutingRelation::Peer)
        } else if bytes_eq_ignore_case(bytes, &child) {
            Ok(RoutingRelation::Child)
        } else {
            Err(())
        }
    }
}

/// Account methods the route manager reads.
pub trait CcpRoutingAccount {
    /// The kind of relationship this node has with the account.
    fn routing_relation(&self) -> RoutingRelation;

    /// Should this node send route updates to the account?
    fn should_send_routes(&self) -> bool {
        let r = self.routing_relation();
        r == RoutingRelation::Child || r == RoutingRelation::Peer
    }

    /// Should this node accept route updates from the account?
    fn should_receive_routes(&self) -> bool {
        let r = self.routing_relation();
        r == RoutingRelation::Parent || r == RoutingRelation::Peer
    }
}

} // verus!
