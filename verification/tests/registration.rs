use warroom_scribe::registration::{
    after_attempt, command_failure, commands_url, failure_reply, pause_before, RegistrationStep,
};

#[test]
fn the_address_names_application_and_guild() {
    assert_eq!(
        commands_url(123, 456),
        "https://discord.com/api/v10/applications/123/guilds/456/commands"
    );
}

#[test]
fn the_status_decides_what_follows() {
    assert_eq!(after_attempt(None), RegistrationStep::GiveUp);
    for code in [200, 201, 204, 299] {
        assert_eq!(after_attempt(Some(code)), RegistrationStep::Confirm);
    }
    assert_eq!(after_attempt(Some(429)), RegistrationStep::RetryLater);
    for code in [0, 199, 300, 400, 401, 428, 430, 500] {
        assert_eq!(after_attempt(Some(code)), RegistrationStep::Unexpected);
    }
}

#[test]
fn pauses_come_before_registering() {
    assert_eq!(pause_before(None), Some(800));
    assert_eq!(pause_before(Some(RegistrationStep::Confirm)), Some(4000));
    assert_eq!(pause_before(Some(RegistrationStep::RetryLater)), None);
    assert_eq!(pause_before(Some(RegistrationStep::GiveUp)), None);
    assert_eq!(pause_before(Some(RegistrationStep::Unexpected)), None);
}

#[test]
fn a_failed_command_is_reported() {
    let failure = command_failure("warroom start", "panne");
    assert_eq!(failure, "Erreur dans `warroom start` : panne");
    assert_eq!(failure_reply(&failure), ":x: Erreur dans `warroom start` : panne");
}
