use management::dates::Date;
use management::inbox::conversations::{
    apply_player_response, ContractExitIntent, ConversationPlayer, RenewalSessionStatus,
};
use management::inbox::{
    ActionOption, ActionResolution, ActionType, EffectReceipt, InboxError, InboxMessage,
    InboxStore, MessageAction, ResolutionEffect,
};
use rand::rngs::StdRng;
use rand::{RngExt, SeedableRng};

fn date(text: &str) -> Date {
    Date::parse(text).unwrap()
}

fn choice(ids: &[&str]) -> ActionType {
    ActionType::ChooseOption {
        options: ids
            .iter()
            .map(|id| ActionOption {
                id: id.to_string(),
                label: id.to_string(),
                description: String::new(),
            })
            .collect(),
    }
}

fn message(id: &str, date: &str) -> InboxMessage {
    InboxMessage {
        id: id.into(),
        subject: "Subject".into(),
        body: "Body".into(),
        sender: "Sender".into(),
        date: date.into(),
        read: false,
        actions: vec![MessageAction {
            id: "respond".into(),
            label: "Respond".into(),
            resolved: false,
            action_type: choice(&["yes", "no"]),
        }],
        player_id: None,
    }
}

fn receipt(key: &str) -> EffectReceipt {
    EffectReceipt {
        i18n_key: key.into(),
        i18n_params: vec![],
    }
}

#[test]
fn recipient_is_immutable_and_independent_of_context_club() {
    let mut store = InboxStore::default();
    store
        .deliver("original-manager", message("same-id", "2026-06-01"))
        .unwrap();
    assert_eq!(store.list("original-manager").len(), 1);
    for actor in ["replacement-manager", "rival-club", "outsider"] {
        assert!(store.list(actor).is_empty());
        assert!(matches!(store.get(actor, "same-id"), Err(InboxError::Unavailable)));
        assert_eq!(store.mark_read(actor, "same-id"), Err(InboxError::Unavailable));
    }
    store
        .deliver("other-manager", message("same-id", "2026-06-01"))
        .unwrap();
    store.mark_all_read("original-manager");
    assert!(!store.get("other-manager", "same-id").unwrap().read);
    store.validate().unwrap();
}

#[test]
fn unknown_failed_expired_and_replayed_choices_never_repeat_effects() {
    let mut store = InboxStore::default();
    store.deliver("manager", message("event", "2026-06-01")).unwrap();
    let before = store.history("manager");
    assert_eq!(
        store.resolve_with("manager", "event", "respond", Some("unknown"), |_, _, _| {
            panic!("invalid choice executed")
        }),
        Err(InboxError::InvalidOption)
    );
    assert_eq!(
        store.resolve_with("manager", "event", "respond", Some("yes"), |_, _, _| Err(
            InboxError::UnsupportedAction
        )),
        Err(InboxError::UnsupportedAction)
    );
    assert_eq!(before, store.history("manager"));
    let receipt = store
        .resolve_with("manager", "event", "respond", Some("yes"), |_, _, _| {
            Ok(receipt("effect"))
        })
        .unwrap();
    store.validate().unwrap();
    assert_eq!(
        store.resolve_with("manager", "event", "respond", Some("yes"), |_, _, _| {
            panic!("replayed effect")
        }),
        Ok(receipt)
    );
    assert_eq!(
        store.resolve_with("manager", "event", "respond", Some("no"), |_, _, _| panic!(
            "changed effect"
        )),
        Err(InboxError::AlreadyResolved)
    );
    store
        .deliver("manager", message("expiring", "2026-06-01"))
        .unwrap();
    store
        .expire_action("manager", "expiring", "respond", date("2026-06-02"), "Offer closed")
        .unwrap();
    assert_eq!(
        store.resolve_with("manager", "expiring", "respond", Some("yes"), |_, _, _| {
            panic!("expired effect")
        }),
        Err(InboxError::Expired)
    );
}

#[test]
fn cleanup_uses_source_fourteen_day_boundary_and_retains_pending_or_unread() {
    let mut store = InboxStore::default();
    for (id, date, read, resolved) in [
        ("old-read", "2026-06-01", true, true),
        ("boundary", "2026-06-02", true, true),
        ("unread", "2026-06-01", false, true),
        ("pending", "2026-06-01", true, false),
    ] {
        let mut msg = message(id, date);
        msg.read = read;
        msg.actions[0].resolved = resolved;
        store.deliver("manager", msg).unwrap();
    }
    assert_eq!(store.clear_old("manager", date("2026-06-16")), 1);
    assert_eq!(store.list("manager").len(), 3);
    assert!(!store
        .deliver("manager", message("old-read", "2026-06-01"))
        .unwrap());
    store.validate().unwrap();
}

fn player(id: &str, club: &str) -> ConversationPlayer {
    ConversationPlayer {
        id: id.into(),
        team_id: Some(club.into()),
        morale: 50,
        composure: 50,
        leadership: 50,
        aggression: 50,
        manager_trust: 50,
        unresolved_issue: None,
        recent_treatment: None,
        pending_promise: None,
        talk_cooldown_until: None,
        renewal_state: None,
    }
}

fn conversation(family: &str, option: &str) -> InboxMessage {
    let mut msg = message(&format!("{family}_p_2026-06-01"), "2026-06-01");
    msg.player_id = Some("p".into());
    msg.actions[0].action_type = choice(&[option]);
    msg
}

#[test]
fn source_playing_time_promise_and_receipt_apply_only_once() {
    let today = date("2026-06-01");
    let mut players = vec![player("p", "own"), player("rival", "other")];
    let mut store = InboxStore::default();
    let message = conversation("bench_complaint", "promise_chance");
    let message_id = message.id.clone();
    store.deliver("manager", message).unwrap();
    let mut rng = StdRng::seed_from_u64(42);
    let expected: i8 = StdRng::seed_from_u64(42).random_range(8..=14);
    let result = store
        .resolve_with(
            "manager",
            &message_id,
            "respond",
            Some("promise_chance"),
            |message, action, option| {
                apply_player_response(
                    &mut players,
                    "own",
                    message,
                    &action.id,
                    option,
                    today,
                    &mut rng,
                )
            },
        )
        .unwrap();
    assert_eq!(players[0].morale, (50 + expected) as u8);
    assert_eq!(players[0].manager_trust, 56);
    assert_eq!(players[0].pending_promise.as_ref().unwrap().matches_remaining, 1);
    assert_eq!(players[0].talk_cooldown_until.as_deref(), Some("2026-06-01"));
    assert_eq!(
        players[0].recent_treatment.as_ref().unwrap().action_key,
        "bench_complaint:promise_chance"
    );
    assert_eq!(players[1].morale, 50);
    assert_eq!(
        store.resolve_with(
            "manager",
            &message_id,
            "respond",
            Some("promise_chance"),
            |_, _, _| panic!("repeat promise effect")
        ),
        Ok(result)
    );
}

#[test]
fn source_no_renewal_updates_exit_intent_and_only_own_teammates() {
    let today = date("2026-06-01");
    let mut players = vec![
        player("p", "own"),
        player("teammate", "own"),
        player("rival", "other"),
    ];
    let message = conversation("contract_concern", "no_renewal");
    let mut reference = StdRng::seed_from_u64(7);
    let delta: i8 = reference.random_range(-15..=-8);
    let teammate_loss: i16 = reference.random_range(2..=5);
    let mut rng = StdRng::seed_from_u64(7);
    let effect = apply_player_response(
        &mut players,
        "own",
        &message,
        "respond",
        "no_renewal",
        today,
        &mut rng,
    )
    .unwrap();
    assert_eq!(players[0].morale, (50 + delta) as u8);
    assert_eq!(players[0].manager_trust, 42);
    let renewal = players[0].renewal_state.as_ref().unwrap();
    assert_eq!(renewal.status, RenewalSessionStatus::Blocked);
    assert_eq!(renewal.manager_blocked_until.as_deref(), Some("2026-07-31"));
    assert!(matches!(
        renewal.exit_intent,
        Some(ContractExitIntent::LetExpire { .. })
    ));
    assert_eq!(players[1].morale, (50 - teammate_loss) as u8);
    assert_eq!(players[2].morale, 50);
    let affected = effect
        .i18n_params
        .iter()
        .find(|(key, _)| key == "affected")
        .map(|(_, value)| value.as_str());
    assert_eq!(affected, Some("1"));
    assert_eq!(rng.random::<u64>(), reference.random::<u64>());
}

#[test]
fn conversation_scope_and_unsupported_actions_fail_without_mutation_or_rng() {
    let mut players = vec![player("p", "own")];
    let before = players.clone();
    let today = date("2026-06-01");
    let mut rng = StdRng::seed_from_u64(42);
    assert_eq!(
        apply_player_response(
            &mut players,
            "rival",
            &conversation("bench_complaint", "promise_chance"),
            "respond",
            "promise_chance",
            today,
            &mut rng
        ),
        Err(InboxError::Unavailable)
    );
    assert_eq!(
        apply_player_response(
            &mut players,
            "own",
            &conversation("unsupported", "unknown"),
            "respond",
            "unknown",
            today,
            &mut rng
        ),
        Err(InboxError::UnsupportedAction)
    );
    assert_eq!(before, players);
    assert_eq!(
        rng.random::<u64>(),
        StdRng::seed_from_u64(42).random::<u64>()
    );
}

#[test]
fn acknowledgements_need_no_option_and_replay_once() {
    let mut store = InboxStore::default();
    let mut msg = message("note", "2026-06-01");
    msg.actions[0].action_type = ActionType::NavigateTo {
        route: "/squad".into(),
    };
    store.deliver("manager", msg).unwrap();
    assert_eq!(
        store.resolve_with("manager", "note", "respond", Some("yes"), |_, _, _| panic!(
            "no effect for navigation"
        )),
        Err(InboxError::InvalidOption)
    );
    let done = store
        .resolve_with("manager", "note", "respond", None, |_, _, _| panic!("no effect"))
        .unwrap();
    assert_eq!(
        done,
        ActionResolution {
            action_id: "respond".into(),
            option_id: None,
            effect: ResolutionEffect::NavigateTo {
                route: "/squad".into()
            },
        }
    );
    assert!(store.get("manager", "note").unwrap().actions[0].resolved);
    assert_eq!(
        store.resolve_with("manager", "note", "respond", None, |_, _, _| panic!("again")),
        Ok(done)
    );
    assert_eq!(
        store.resolve_with("manager", "note", "missing", None, |_, _, _| panic!("missing")),
        Err(InboxError::Unavailable)
    );
    assert_eq!(
        store.expire_action("manager", "note", "respond", date("2026-06-02"), "late"),
        Ok(false)
    );
    store.validate().unwrap();
}

#[test]
fn invalid_messages_and_recipients_are_refused() {
    let mut store = InboxStore::default();
    assert_eq!(
        store.deliver(" \t", message("a", "2026-06-01")),
        Err(InboxError::InvalidMessage)
    );
    assert_eq!(
        store.deliver("manager", message(" ", "2026-06-01")),
        Err(InboxError::InvalidMessage)
    );
    let mut duplicate_options = message("b", "2026-06-01");
    duplicate_options.actions[0].action_type = choice(&["yes", "yes"]);
    assert_eq!(
        store.deliver("manager", duplicate_options),
        Err(InboxError::InvalidMessage)
    );
    let mut no_options = message("c", "2026-06-01");
    no_options.actions[0].action_type = choice(&[]);
    assert_eq!(store.deliver("manager", no_options), Err(InboxError::InvalidMessage));
    let mut duplicate_actions = message("d", "2026-06-01");
    let again = duplicate_actions.actions[0].clone();
    duplicate_actions.actions.push(again);
    assert_eq!(
        store.deliver("manager", duplicate_actions),
        Err(InboxError::InvalidMessage)
    );
    assert!(store.history("manager").is_empty());
    assert!(!store.contains_delivery("manager", "a"));
}

#[test]
fn deletion_keeps_history_and_blocks_redelivery() {
    let mut store = InboxStore::default();
    store.deliver("manager", message("a", "2026-06-01")).unwrap();
    store.deliver("manager", message("b", "2026-06-02")).unwrap();
    store.deliver("coach", message("a", "2026-06-01")).unwrap();
    store.delete("manager", "a").unwrap();
    assert_eq!(store.delete("manager", "a"), Err(InboxError::Unavailable));
    assert_eq!(store.list("manager").len(), 1);
    assert_eq!(store.history("manager").len(), 2);
    assert!(store.contains_delivery("manager", "a"));
    assert_eq!(store.deliver("manager", message("a", "2026-06-01")), Ok(false));
    assert_eq!(store.list("coach").len(), 1);
    assert_eq!(
        store.recipients(),
        vec!["coach".to_string(), "manager".to_string()]
    );
    assert_eq!(
        store.expire_action("manager", "b", "respond", date("2026-06-03"), "closed"),
        Ok(true)
    );
    store.validate().unwrap();
}

#[test]
fn a_message_may_drop_resolved_actions_but_never_revive_them() {
    let mut store = InboxStore::default();
    store.deliver("manager", message("event", "2026-06-01")).unwrap();
    let mut newer = message("event", "2026-06-02");
    newer.actions.clear();
    newer.body = "Updated".into();
    // The action is still open: it cannot be dropped.
    assert_eq!(
        store.replace_domain_message("manager", newer.clone()),
        Err(InboxError::InvalidMessage)
    );
    store
        .resolve_with("manager", "event", "respond", Some("yes"), |_, _, _| Ok(receipt("effect")))
        .unwrap();
    assert_eq!(store.replace_domain_message("manager", newer.clone()), Ok(()));
    assert_eq!(store.get("manager", "event").unwrap().body, "Updated");
    store.validate().unwrap();
    // The dropped action keeps its resolution; its ID cannot come back.
    assert_eq!(
        store.replace_domain_message("manager", message("event", "2026-06-03")),
        Err(InboxError::InvalidMessage)
    );
    assert_eq!(
        store.replace_domain_message("coach", newer.clone()),
        Err(InboxError::Unavailable)
    );
    let mut invalid = newer;
    invalid.id = " ".into();
    assert_eq!(
        store.replace_domain_message("manager", invalid),
        Err(InboxError::InvalidMessage)
    );
}
