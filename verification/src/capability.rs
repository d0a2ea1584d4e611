use crate::view::views;
use vstd::prelude::*;

verus! {

/// The name of the operation through which a peer receives notifications
/// from other peers.
pub const RECV_REMOTE_SIGNAL: &'static str = "recv_remote_signal";

/// One operation of one module, as a grant names it.
#[derive(Debug, PartialEq, Eq)]
pub struct GrantedFunction {
    pub zome: String,
    pub function: String,
}

/// A [`GrantedFunction`] as a mathematical value.
pub struct GrantedFunctionView {
    pub zome: Seq<char>,
    pub function: Seq<char>,
}

impl View for GrantedFunction {
    type V = GrantedFunctionView;

    open spec fn view(&self) -> GrantedFunctionView {
        GrantedFunctionView { zome: self.zome@, function: self.function@ }
    }
}

/// A permission without conditions: any peer, known or not, may call the
/// operations that it lists, and no others.
#[derive(Debug, PartialEq, Eq)]
pub struct UnrestrictedGrant {
    pub tag: String,
    pub functions: Vec<GrantedFunction>,
}

/// An [`UnrestrictedGrant`] as a mathematical value.
pub struct GrantView {
    pub tag: Seq<char>,
    pub functions: Seq<GrantedFunctionView>,
}

impl View for UnrestrictedGrant {
    type V = GrantView;

    open spec fn view(&self) -> GrantView {
        GrantView { tag: self.tag@, functions: views(self.functions@) }
    }
}

impl GrantView {
    /// Whether the grant lists `function` of `zome`.
    pub open spec fn covers(self, zome: Seq<char>, function: Seq<char>) -> bool {
        self.functions.contains(GrantedFunctionView { zome, function })
    }
}

/// The grant that lets other peers send notifications to this one, as a
/// mathematical value: no tag, and the one operation that receives them.
pub open spec fn signal_grant_of(zome: Seq<char>) -> GrantView {
    GrantView {
        tag: Seq::empty(),
        functions: seq![GrantedFunctionView { zome, function: RECV_REMOTE_SIGNAL@ }],
    }
}

/// The grant to register when the module `zome` starts: it opens the
/// operation that receives notifications to every peer, because an
/// invitee need not know its inviter beforehand.
pub fn signal_grant(zome: String) -> (grant: UnrestrictedGrant)
    ensures
        grant@ == signal_grant_of(zome@),
{
    let mut functions: Vec<GrantedFunction> = Vec::new();
    functions.push(GrantedFunction { zome, function: RECV_REMOTE_SIGNAL.to_owned() });
    let grant = UnrestrictedGrant { tag: String::new(), functions };
    assert(grant@.functions =~= signal_grant_of(zome@).functions);
    grant
}

impl UnrestrictedGrant {
    /// Whether the grant lists `function` of `zome`.
    pub fn covers(&self, zome: &String, function: &String) -> (covered: bool)
        ensures
            covered == self@.covers(zome@, function@),
    {
        let mut i: usize = 0;
        while i < self.functions.len()
            invariant
                i <= self.functions.len(),
                forall|j: int|
                    0 <= j < i ==> self@.functions[j] != (GrantedFunctionView {
                        zome: zome@,
                        function: function@,
                    }),
            decreases self.functions.len() - i,
        {
            if self.functions[i].zome == *zome && self.functions[i].function == *function {
                assert(self@.functions[i as int] == (GrantedFunctionView {
                    zome: zome@,
                    function: function@,
                }));
                return true;
            }
            i += 1;
        }
        false
    }
}

/// The grant made at start covers the receiving operation of its own
/// module and nothing else.
pub proof fn lemma_signal_grant_covers(zome: Seq<char>, other_zome: Seq<char>, function: Seq<char>)
    ensures
        signal_grant_of(zome).covers(other_zome, function) <==> (other_zome == zome && function
            == RECV_REMOTE_SIGNAL@),
{
    let grant = signal_grant_of(zome);
    let wanted = GrantedFunctionView { zome: other_zome, function };
    if other_zome == zome && function == RECV_REMOTE_SIGNAL@ {
        assert(grant.functions[0] == wanted);
    }
}

} // verus!
