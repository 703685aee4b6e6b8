use zapx::agent::AgentPriority;

#[test]
fn priority_round_trip() {
    for v in [
        AgentPriority::Auto,
        AgentPriority::PageantFirst,
        AgentPriority::OpenSshOnly,
        AgentPriority::PageantOnly,
    ] {
        assert_eq!(AgentPriority::from_setting(v.as_setting()), v);
    }
}

#[test]
fn priority_accepts_common_variants() {
    assert_eq!(AgentPriority::from_setting(""), AgentPriority::Auto);
    assert_eq!(AgentPriority::from_setting("AUTO"), AgentPriority::Auto);
    assert_eq!(AgentPriority::from_setting("pageant_first"), AgentPriority::PageantFirst);
    assert_eq!(AgentPriority::from_setting("  Pageant-First  "), AgentPriority::PageantFirst);
    assert_eq!(AgentPriority::from_setting("openssh_only"), AgentPriority::OpenSshOnly);
}

#[test]
fn priority_unknown_falls_back_to_auto() {
    assert_eq!(AgentPriority::from_setting("bogus"), AgentPriority::Auto);
    assert_eq!(AgentPriority::from_setting("openssh,pageant"), AgentPriority::Auto);
}
