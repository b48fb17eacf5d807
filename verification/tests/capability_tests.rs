use elegant_state::AgentId;
use elegant_state::CapabilityConfig;
use elegant_state::CapabilityMode;
use elegant_state::Error;
use elegant_state::ErrorKind;
use elegant_state::DEFAULT_VOTE_WEIGHT;

#[test]
fn defaults_are_proposal_mode_except_system() {
    let config = CapabilityConfig::new();
    assert_eq!(config.get_capabilities(&AgentId::System).mode, CapabilityMode::Direct);
    assert_eq!(config.get_capabilities(&AgentId::User).mode, CapabilityMode::Proposal);
    assert_eq!(config.get_capabilities(&AgentId::Assistant).mode, CapabilityMode::Proposal);
    let caps = config.get_capabilities(&AgentId::Llama);
    assert!(caps.can_vote);
    assert_eq!(caps.vote_weight, DEFAULT_VOTE_WEIGHT);
    let module = config.get_capabilities(&AgentId::Module("x".to_string()));
    assert_eq!(module.mode, CapabilityMode::Proposal);
}

#[test]
fn set_capabilities_replaces_the_record() {
    let mut config = CapabilityConfig::new();
    let mut caps = config.get_capabilities(&AgentId::Assistant);
    caps.mode = CapabilityMode::Direct;
    caps.vote_weight = 2500;
    config.set_capabilities(caps).unwrap();

    let read = config.get_capabilities(&AgentId::Assistant);
    assert_eq!(read.mode, CapabilityMode::Direct);
    assert_eq!(read.vote_weight, 2500);
    // Other agents keep their defaults.
    assert_eq!(config.get_capabilities(&AgentId::User).vote_weight, DEFAULT_VOTE_WEIGHT);

    let mut caps2 = config.get_capabilities(&AgentId::Assistant);
    caps2.can_vote = false;
    config.set_capabilities(caps2).unwrap();
    let read2 = config.get_capabilities(&AgentId::Assistant);
    assert!(!read2.can_vote);
    assert_eq!(read2.vote_weight, 2500);
}

#[test]
fn runtime_changes_can_be_disabled_by_policy() {
    let mut config = CapabilityConfig::new();
    config.allow_runtime_changes = false;
    let caps = config.get_capabilities(&AgentId::Assistant);
    let err = config.set_capabilities(caps).unwrap_err();
    assert_eq!(err, Error::RuntimeChangesDisabled);
    assert_eq!(err.kind(), ErrorKind::InvalidState);
    let err2 = config.register_module("alpha", CapabilityMode::Proposal).unwrap_err();
    assert_eq!(err2, Error::RuntimeChangesDisabled);
}

#[test]
fn register_module_validates_and_sets_capabilities() {
    let mut config = CapabilityConfig::new();
    config.register_module("alpha", CapabilityMode::Direct).unwrap();

    assert_eq!(config.modules().len(), 1);
    assert_eq!(config.modules()[0], "alpha");
    let caps = config.get_capabilities(&AgentId::Module("alpha".to_string()));
    assert_eq!(caps.mode, CapabilityMode::Direct);
    assert!(caps.can_vote);
    assert_eq!(caps.vote_weight, DEFAULT_VOTE_WEIGHT);

    // Malformed names are rejected before anything changes.
    assert_eq!(
        config.register_module("", CapabilityMode::Proposal),
        Err(Error::InvalidModuleName)
    );
    assert_eq!(
        config.register_module("a:b", CapabilityMode::Proposal),
        Err(Error::InvalidModuleName)
    );
    assert_eq!(
        config.register_module("a b", CapabilityMode::Proposal),
        Err(Error::InvalidModuleName)
    );
    // Duplicate registration is rejected.
    assert_eq!(
        config.register_module("alpha", CapabilityMode::Proposal),
        Err(Error::ModuleAlreadyRegistered)
    );
    assert_eq!(config.modules().len(), 1);
}

#[test]
fn unregister_module_removes_the_name() {
    let mut config = CapabilityConfig::new();
    config.register_module("alpha", CapabilityMode::Proposal).unwrap();
    config.register_module("beta", CapabilityMode::Proposal).unwrap();

    config.unregister_module("alpha").unwrap();
    assert_eq!(config.modules().len(), 1);
    assert_eq!(config.modules()[0], "beta");
    assert_eq!(config.unregister_module("alpha"), Err(Error::ModuleNotRegistered));
}

#[test]
fn error_messages_name_the_violated_invariant() {
    assert_eq!(Error::ProposalNotPending.message(), "proposal already resolved");
    assert_eq!(Error::VoterCannotVote.message(), "agent lacks vote capability");
    assert_eq!(Error::NodeNotFound.kind(), ErrorKind::NotFound);
    assert_eq!(Error::InvalidDecayFactor.kind(), ErrorKind::InvalidInput);
    assert_eq!(Error::MutationNotPermitted.kind(), ErrorKind::InvalidState);
}
