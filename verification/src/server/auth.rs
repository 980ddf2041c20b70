//! Who is on the other end of a connection. The answer comes from the kernel and
//! the group database, never from the wire.

use vstd::prelude::*;

use crate::text::same;

verus! {

/// The peer of a connection.
#[derive(Debug, Clone, Copy, PartialEq, Eq, Structural)]
pub struct Auth {
    pub uid: u32,
    pub in_admin_group: bool,
}

impl Auth {
    /// Whether the peer may change the configuration.
    pub open spec fn may_change(self) -> bool {
        self.uid == 0 || self.in_admin_group
    }
}

/// Whether a peer may change the configuration: root, or a member of the
/// administrators' group.
pub fn authorized(uid: u32, in_admin_group: bool) -> (r: bool)
    ensures
        r == (Auth { uid, in_admin_group }).may_change(),
{
    uid == 0 || in_admin_group
}

/// The peer from the kernel's credentials and its membership of the
/// administrators' group. A peer without credentials has no privilege.
pub fn peer_auth(uid: Option<u32>, in_admin_group: bool) -> (r: Auth)
    ensures
        r == (match uid {
            Some(u) => Auth { uid: u, in_admin_group },
            None => Auth { uid: u32::MAX, in_admin_group: false },
        }),
        uid is None ==> !r.may_change(),
{
    match uid {
        Some(u) => Auth { uid: u, in_admin_group },
        None => Auth { uid: 0xffff_ffff, in_admin_group: false },
    }
}

/// Whether a group is among those of a user. `groups` holds their names, `None`
/// for a name that is not text; it is missing where the user, or their groups, are
/// not known.
pub fn uid_in_group(groups: Option<&Vec<Option<String>>>, group: &str) -> (r: bool)
    ensures
        r <==> (groups is Some && exists|i: int|
            0 <= i < groups->0@.len() && (#[trigger] groups->0@[i] matches Some(g) && g@
                == group@)),
{
    match groups {
        Some(gs) => {
            let mut i: usize = 0;
            while i < gs.len()
                invariant
                    i <= gs@.len(),
                    groups == Some(gs),
                    forall|k: int|
                        0 <= k < i ==> !(#[trigger] gs@[k] matches Some(g) && g@ == group@),
                decreases gs@.len() - i,
            {
                match &gs[i] {
                    Some(g) => {
                        if same(g.as_str(), group) {
                            assert(groups->0@[i as int] matches Some(x) && x@ == group@);
                            return true;
                        }
                    },
                    None => {},
                }
                i = i + 1;
            }
            false
        },
        None => false,
    }
}

/// The superuser may change things, and so may who is in the administrators' group;
/// nobody else may.
pub proof fn only_administrators_may_change(a: Auth)
    ensures
        a.uid == 0 ==> a.may_change(),
        a.in_admin_group ==> a.may_change(),
        a.uid != 0 && !a.in_admin_group ==> !a.may_change(),
{
}

} // verus!
