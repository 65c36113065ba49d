//! The rollout of deterministic raptorcast (v1) in place of the regular one
//! (v0).
//!
//! A release stands at one of four stages: v0 only; both accepted and v0
//! published; both accepted and v1 published; v1 only.
use vstd::prelude::*;

verus! {

/// A stage of the rollout.
#[derive(Clone, Copy, Debug, PartialEq, Eq, Structural)]
pub enum DeterministicProtocolRolloutStage {
    AlwaysV0,
    AcceptBothPublishV0,
    AcceptBothPublishV1,
    AlwaysV1,
}

/// The stage of this release.
pub const CURRENT_STAGE: DeterministicProtocolRolloutStage =
    DeterministicProtocolRolloutStage::AlwaysV0;

impl Default for DeterministicProtocolRolloutStage {
    fn default() -> (r: Self)
        ensures
            r == CURRENT_STAGE,
    {
        CURRENT_STAGE
    }
}

impl DeterministicProtocolRolloutStage {
    /// The name of the stage in settings.
    pub open spec fn text(self) -> Seq<char> {
        match self {
            DeterministicProtocolRolloutStage::AlwaysV0 => "always_v0"@,
            DeterministicProtocolRolloutStage::AcceptBothPublishV0 => "accept_both_publish_v0"@,
            DeterministicProtocolRolloutStage::AcceptBothPublishV1 => "accept_both_publish_v1"@,
            DeterministicProtocolRolloutStage::AlwaysV1 => "always_v1"@,
        }
    }

    /// The name of the stage in settings.
    pub fn name(self) -> (r: &'static str)
        ensures
            r@ == self.text(),
    {
        match self {
            DeterministicProtocolRolloutStage::AlwaysV0 => "always_v0",
            DeterministicProtocolRolloutStage::AcceptBothPublishV0 => "accept_both_publish_v0",
            DeterministicProtocolRolloutStage::AcceptBothPublishV1 => "accept_both_publish_v1",
            DeterministicProtocolRolloutStage::AlwaysV1 => "always_v1",
        }
    }
}

/// Each stage has its own name, and this release stands at the first one.
pub proof fn stages_have_their_own_names(
    a: DeterministicProtocolRolloutStage,
    b: DeterministicProtocolRolloutStage,
)
    ensures
        a.text() == b.text() ==> a == b,
        DeterministicProtocolRolloutStage::AlwaysV0.text() == "always_v0"@,
        DeterministicProtocolRolloutStage::AcceptBothPublishV0.text() == "accept_both_publish_v0"@,
        DeterministicProtocolRolloutStage::AcceptBothPublishV1.text() == "accept_both_publish_v1"@,
        DeterministicProtocolRolloutStage::AlwaysV1.text() == "always_v1"@,
        CURRENT_STAGE == DeterministicProtocolRolloutStage::AlwaysV0,
{
    reveal_strlit("always_v0");
    reveal_strlit("always_v1");
    reveal_strlit("accept_both_publish_v0");
    reveal_strlit("accept_both_publish_v1");
    assert("always_v0"@[8] != "always_v1"@[8]);
    assert("accept_both_publish_v0"@[21] != "accept_both_publish_v1"@[21]);
}

} // verus!
