use management::{
    Club, Command, Error, Management, Manager, OfferStatus, Outcome, Player, Receipt, Request,
};

fn club(id: &str, balance: u64) -> Club {
    Club { id: id.into(), name: format!("{id} FC"), balance }
}

fn manager(club_id: &str) -> Manager {
    Manager { id: format!("manager-{club_id}"), club_id: club_id.into() }
}

fn player(id: &str, club_id: &str) -> Player {
    Player { id: id.into(), name: id.into(), club_id: club_id.into() }
}

fn request(id: &str, day: u32, command: Command) -> Request {
    Request { id: id.into(), day, command }
}

fn two_clubs() -> Management {
    Management::new(
        vec![club("north", 1_000), club("south", 1_000)],
        vec![player("striker", "south")],
        vec![manager("north"), manager("south")],
        1,
        10_000,
    )
    .unwrap()
}

fn outcome(receipt: Receipt) -> Outcome {
    receipt.result.unwrap()
}

#[test]
fn model_free_transfer_through_commands() {
    let mut game = two_clubs();
    let receipt = game
        .dispatch(
            "manager-north",
            request("bid", 1, Command::Offer { player_id: "striker".into(), fee: 250 }),
            10,
        )
        .unwrap();
    let Outcome::Offered(offer) = outcome(receipt) else { panic!("offer expected") };
    let receipt = game
        .dispatch("manager-south", request("review", 1, Command::Review { offer_id: offer.id }), 20)
        .unwrap();
    let Outcome::Preview(preview) = outcome(receipt) else { panic!("preview expected") };
    let receipt = game
        .dispatch(
            "manager-south",
            request("confirm", 1, Command::Confirm { preview_id: preview.id }),
            30,
        )
        .unwrap();
    assert!(matches!(receipt.result, Ok(Outcome::Transferred { .. })));
    assert_eq!(game.manager_view("manager-north").unwrap().club.balance, 750);
    assert_eq!(game.manager_view("manager-south").unwrap().club.balance, 1_250);
    let state = game.public_state();
    assert_eq!(state.players, vec![player("striker", "north")]);
}

#[test]
fn preview_reports_the_seller_balance_after_the_fee() {
    let mut game = two_clubs();
    let offered = game
        .dispatch(
            "manager-north",
            request("bid", 1, Command::Offer { player_id: "striker".into(), fee: 300 }),
            10,
        )
        .unwrap();
    assert_eq!(offered.sequence, 1);
    let Outcome::Offered(offer) = outcome(offered) else { panic!() };
    assert_eq!(offer.id, 1);
    assert_eq!(offer.buyer, "north");
    assert_eq!(offer.seller, "south");
    assert_eq!(offer.status, OfferStatus::Pending);
    let reviewed = game
        .dispatch("manager-south", request("review", 1, Command::Review { offer_id: 1 }), 20)
        .unwrap();
    assert_eq!(reviewed.sequence, 2);
    let Outcome::Preview(preview) = outcome(reviewed) else { panic!() };
    assert_eq!(preview.id, 2);
    assert_eq!(preview.seller_balance_after, 1_300);
}

#[test]
fn replayed_request_returns_the_stored_receipt() {
    let mut game = two_clubs();
    let bid = request("bid", 1, Command::Offer { player_id: "striker".into(), fee: 100 });
    let first = game.dispatch("manager-north", bid.clone(), 10).unwrap();
    let again = game.dispatch("manager-north", bid, 5_000).unwrap();
    assert_eq!(first, again);
    assert_eq!(game.manager_view("manager-north").unwrap().offers.len(), 1);
    let next = game.dispatch("manager-north", request("ready", 1, Command::Ready), 20).unwrap();
    assert_eq!(next.sequence, 2);
}

#[test]
fn a_request_id_is_not_reused_for_another_request() {
    let mut game = two_clubs();
    game.dispatch("manager-north", request("x", 1, Command::Ready), 10).unwrap();
    assert_eq!(
        game.dispatch("manager-north", request("x", 1, Command::Review { offer_id: 7 }), 20),
        Err(Error::RequestIdReused)
    );
    // The same ID belongs to each manager separately.
    assert!(game.dispatch("manager-south", request("x", 1, Command::Ready), 20).is_ok());
}

#[test]
fn unknown_actor_and_empty_request_id_are_refused_without_a_receipt() {
    let mut game = two_clubs();
    assert_eq!(
        game.dispatch("stranger", request("a", 1, Command::Ready), 10),
        Err(Error::Unauthorized)
    );
    assert_eq!(
        game.dispatch("manager-north", request("", 1, Command::Ready), 10),
        Err(Error::InvalidRequest)
    );
    let receipt = game.dispatch("manager-north", request("a", 1, Command::Ready), 10).unwrap();
    assert_eq!(receipt.sequence, 1);
    assert!(game.manager_view("stranger").is_err());
    assert_eq!(game.lineup("stranger"), Err(Error::Unauthorized));
}

#[test]
fn wrong_day_and_closed_day_are_answered_with_receipts() {
    let mut game = two_clubs();
    let receipt = game.dispatch("manager-north", request("a", 2, Command::Ready), 10).unwrap();
    assert_eq!(receipt.result, Err(Error::WrongDay));
    let receipt = game.dispatch("manager-north", request("b", 1, Command::Ready), 10_000).unwrap();
    assert_eq!(receipt.result, Err(Error::DayClosed));
    assert_eq!(receipt.sequence, 2);
    assert!(game.closed(0));
}

#[test]
fn the_day_closes_when_every_manager_is_ready_and_then_advances() {
    let mut game = two_clubs();
    assert_eq!(game.next_day(1, 100, 20_000), Err(Error::InvalidRequest));
    game.dispatch("manager-north", request("r", 1, Command::Ready), 10).unwrap();
    assert!(!game.closed(20));
    assert_eq!(game.manager_view("manager-north").unwrap().ready, true);
    let receipt = game
        .dispatch(
            "manager-north",
            request("late", 1, Command::Offer { player_id: "striker".into(), fee: 10 }),
            20,
        )
        .unwrap();
    assert_eq!(receipt.result, Err(Error::AlreadyReady));
    game.dispatch("manager-south", request("r", 1, Command::Ready), 30).unwrap();
    assert!(game.closed(40));
    assert_eq!(game.next_day(2, 100, 20_000), Err(Error::WrongDay));
    assert_eq!(game.next_day(1, 100, 100), Err(Error::InvalidRequest));
    assert_eq!(game.next_day(1, 100, 20_000), Ok(()));
    assert_eq!(game.public_state().day, 2);
    assert_eq!(game.manager_view("manager-north").unwrap().ready, false);
    assert!(!game.closed(100));
}

#[test]
fn offers_are_checked_before_they_are_made() {
    let mut game = Management::new(
        vec![club("north", 100), club("south", 1_000)],
        vec![player("striker", "south"), player("keeper", "north")],
        vec![manager("north"), manager("south")],
        1,
        10_000,
    )
    .unwrap();
    let mut answer = |id: &str, player_id: &str, fee: u64| {
        game.dispatch(
            "manager-north",
            request(id, 1, Command::Offer { player_id: player_id.into(), fee }),
            10,
        )
        .unwrap()
        .result
    };
    assert_eq!(answer("a", "striker", 0), Err(Error::InvalidFee));
    assert_eq!(answer("b", "striker", 101), Err(Error::InsufficientFunds));
    assert_eq!(answer("c", "nobody", 50), Err(Error::Unavailable));
    assert_eq!(answer("d", "keeper", 50), Err(Error::Unavailable));
    assert!(matches!(answer("e", "striker", 100), Ok(Outcome::Offered(_))));
}

#[test]
fn lineups_need_eleven_different_own_players() {
    let players: Vec<Player> = (0..12)
        .map(|i| player(&format!("n{i}"), "north"))
        .chain([player("s0", "south")])
        .collect();
    let mut game = Management::new(
        vec![club("north", 0), club("south", 0)],
        players,
        vec![manager("north"), manager("south")],
        1,
        10_000,
    )
    .unwrap();
    let eleven: Vec<String> = (0..11).map(|i| format!("n{i}")).collect();
    let mut set = |id: &str, ids: Vec<String>| {
        game.dispatch("manager-north", request(id, 1, Command::SetLineup { player_ids: ids }), 10)
            .unwrap()
            .result
    };
    assert_eq!(set("short", eleven[..10].to_vec()), Err(Error::Unavailable));
    let mut repeated = eleven.clone();
    repeated[10] = "n0".into();
    assert_eq!(set("repeated", repeated), Err(Error::Unavailable));
    let mut foreign = eleven.clone();
    foreign[10] = "s0".into();
    assert_eq!(set("foreign", foreign), Err(Error::Unavailable));
    assert_eq!(set("ok", eleven.clone()), Ok(Outcome::LineupSet));
    assert_eq!(game.lineup("manager-north").unwrap(), eleven);
    assert!(game.lineup("manager-south").unwrap().is_empty());
}

#[test]
fn recovery_modes_wait_for_the_host_to_enable_them() {
    let mut game = two_clubs();
    let set = Command::SetRecovery { mode: management::RecoveryMode::Recovery };
    let receipt = game.dispatch("manager-north", request("a", 1, set.clone()), 10).unwrap();
    assert_eq!(receipt.result, Err(Error::Unavailable));
    game.enable_recovery();
    let receipt = game.dispatch("manager-north", request("b", 1, set), 10).unwrap();
    assert_eq!(receipt.result, Ok(Outcome::RecoverySet));
}

#[test]
fn moved_figures_refresh_the_preview_instead_of_transferring() {
    let mut game = Management::new(
        vec![club("east", 1_000), club("north", 1_000), club("south", 1_000)],
        vec![player("striker", "south"), player("winger", "east")],
        vec![manager("east"), manager("north"), manager("south")],
        1,
        10_000,
    )
    .unwrap();
    let Outcome::Offered(first) = outcome(
        game.dispatch(
            "manager-north",
            request("bid", 1, Command::Offer { player_id: "striker".into(), fee: 200 }),
            10,
        )
        .unwrap(),
    ) else {
        panic!()
    };
    let Outcome::Preview(stale) = outcome(
        game.dispatch("manager-south", request("review", 1, Command::Review { offer_id: first.id }), 10)
            .unwrap(),
    ) else {
        panic!()
    };
    // North buys another player meanwhile, changing its balance.
    let Outcome::Offered(second) = outcome(
        game.dispatch(
            "manager-north",
            request("bid2", 1, Command::Offer { player_id: "winger".into(), fee: 100 }),
            10,
        )
        .unwrap(),
    ) else {
        panic!()
    };
    let Outcome::Preview(p) = outcome(
        game.dispatch("manager-east", request("review", 1, Command::Review { offer_id: second.id }), 10)
            .unwrap(),
    ) else {
        panic!()
    };
    game.dispatch("manager-east", request("confirm", 1, Command::Confirm { preview_id: p.id }), 10)
        .unwrap();
    let refreshed = outcome(
        game.dispatch(
            "manager-south",
            request("confirm", 1, Command::Confirm { preview_id: stale.id }),
            10,
        )
        .unwrap(),
    );
    let Outcome::RefreshRequired(fresh) = refreshed else { panic!("refresh expected") };
    assert_ne!(fresh.id, stale.id);
    assert_eq!(game.manager_view("manager-north").unwrap().club.balance, 900);
    // The stale preview is gone; the fresh one goes through.
    let again = game
        .dispatch(
            "manager-south",
            request("confirm-again", 1, Command::Confirm { preview_id: stale.id }),
            10,
        )
        .unwrap();
    assert_eq!(again.result, Err(Error::Unavailable));
    let done = game
        .dispatch(
            "manager-south",
            request("confirm-fresh", 1, Command::Confirm { preview_id: fresh.id }),
            10,
        )
        .unwrap();
    assert_eq!(done.result, Ok(Outcome::Transferred { offer_id: first.id }));
    assert_eq!(game.manager_view("manager-north").unwrap().club.balance, 700);
}

#[test]
fn confirmation_accepts_one_offer_and_withdraws_the_rest() {
    let mut game = Management::new(
        vec![club("east", 1_000), club("north", 1_000), club("south", 1_000)],
        vec![player("striker", "south")],
        vec![manager("east"), manager("north"), manager("south")],
        1,
        10_000,
    )
    .unwrap();
    for (buyer, fee) in [("north", 300), ("east", 250)] {
        game.dispatch(
            &format!("manager-{buyer}"),
            request("bid", 1, Command::Offer { player_id: "striker".into(), fee }),
            10,
        )
        .unwrap();
    }
    let Outcome::Preview(p) = outcome(
        game.dispatch("manager-south", request("review", 1, Command::Review { offer_id: 1 }), 10)
            .unwrap(),
    ) else {
        panic!()
    };
    game.dispatch("manager-south", request("ok", 1, Command::Confirm { preview_id: p.id }), 10)
        .unwrap();
    let offers = game.manager_view("manager-south").unwrap().offers;
    assert_eq!(offers.iter().map(|o| o.status).collect::<Vec<_>>(), vec![
        OfferStatus::Accepted,
        OfferStatus::Withdrawn
    ]);
    assert_eq!(game.manager_view("manager-east").unwrap().club.balance, 1_000);
    assert_eq!(game.manager_view("manager-south").unwrap().club.balance, 1_300);
}

#[test]
fn only_the_seller_reviews_or_rejects_and_a_rejection_sticks() {
    let mut game = two_clubs();
    game.dispatch(
        "manager-north",
        request("bid", 1, Command::Offer { player_id: "striker".into(), fee: 10 }),
        10,
    )
    .unwrap();
    let buyer_review =
        game.dispatch("manager-north", request("r", 1, Command::Review { offer_id: 1 }), 10).unwrap();
    assert_eq!(buyer_review.result, Err(Error::Unavailable));
    let reject =
        game.dispatch("manager-south", request("no", 1, Command::Reject { offer_id: 1 }), 10).unwrap();
    assert_eq!(reject.result, Ok(Outcome::Rejected));
    let offers = game.manager_view("manager-north").unwrap().offers;
    assert_eq!(offers[0].status, OfferStatus::Rejected);
    let review =
        game.dispatch("manager-south", request("r", 1, Command::Review { offer_id: 1 }), 10).unwrap();
    assert_eq!(review.result, Err(Error::Unavailable));
}

#[test]
fn elimination_withdraws_pending_offers_and_may_close_the_day() {
    let mut game = two_clubs();
    game.dispatch(
        "manager-north",
        request("bid", 1, Command::Offer { player_id: "striker".into(), fee: 10 }),
        10,
    )
    .unwrap();
    game.dispatch("manager-south", request("r", 1, Command::Ready), 10).unwrap();
    assert_eq!(game.eliminate("manager-north"), Ok(()));
    assert_eq!(game.eliminate("manager-north"), Err(Error::Unauthorized));
    let offers = game.manager_view("manager-south").unwrap().offers;
    assert_eq!(offers[0].status, OfferStatus::Withdrawn);
    assert!(game.closed(0));
}

#[test]
fn public_state_lists_clubs_and_players_in_id_order() {
    let game = Management::new(
        vec![club("south", 5), club("east", 5), club("north", 5)],
        vec![player("zed", "east"), player("amy", "north")],
        vec![manager("south")],
        3,
        10,
    )
    .unwrap();
    let state = game.public_state();
    assert_eq!(state.day, 3);
    let ids: Vec<&str> = state.clubs.iter().map(|c| c.id.as_str()).collect();
    assert_eq!(ids, vec!["east", "north", "south"]);
    assert_eq!(state.clubs[0].name, "east FC");
    let pids: Vec<&str> = state.players.iter().map(|p| p.id.as_str()).collect();
    assert_eq!(pids, vec!["amy", "zed"]);
}

#[test]
fn invalid_setups_are_refused() {
    let new = |clubs: Vec<Club>, players: Vec<Player>, managers: Vec<Manager>| {
        Management::new(clubs, players, managers, 1, 10).err()
    };
    assert_eq!(new(vec![], vec![], vec![manager("a")]), Some(Error::InvalidSetup));
    assert_eq!(new(vec![club("a", 0)], vec![], vec![]), Some(Error::InvalidSetup));
    assert_eq!(
        new(vec![club("a", 0), club("a", 1)], vec![], vec![manager("a")]),
        Some(Error::InvalidSetup)
    );
    assert_eq!(
        new(vec![club("a", 0)], vec![player("p", "b")], vec![manager("a")]),
        Some(Error::InvalidSetup)
    );
    assert_eq!(
        new(vec![club("a", 0)], vec![], vec![manager("b")]),
        Some(Error::InvalidSetup)
    );
    assert_eq!(
        new(
            vec![club("a", 0)],
            vec![],
            vec![manager("a"), Manager { id: "other".into(), club_id: "a".into() }]
        ),
        Some(Error::InvalidSetup)
    );
    assert_eq!(
        new(vec![club("", 0)], vec![], vec![Manager { id: "m".into(), club_id: "".into() }]),
        Some(Error::InvalidSetup)
    );
    assert!(new(vec![club("a", 0)], vec![], vec![manager("a")]).is_none());
}

#[test]
fn checkpoint_validation_accepts_sessions_the_commands_build() {
    let mut game = two_clubs();
    assert_eq!(game.validate_checkpoint(), Ok(()));
    let receipt = game
        .dispatch(
            "manager-north",
            request("bid", 1, Command::Offer { player_id: "striker".into(), fee: 250 }),
            10,
        )
        .unwrap();
    let Outcome::Offered(offer) = outcome(receipt) else { panic!("offer expected") };
    game.dispatch("manager-south", request("review", 1, Command::Review { offer_id: offer.id }), 20)
        .unwrap();
    assert_eq!(game.validate_checkpoint(), Ok(()));
}

#[test]
fn checkpoint_stays_valid_after_a_refused_free_offer() {
    let mut game = two_clubs();
    let receipt = game
        .dispatch(
            "manager-north",
            request("bid", 1, Command::Offer { player_id: "striker".into(), fee: 0 }),
            10,
        )
        .unwrap();
    assert!(receipt.result.is_err());
    assert_eq!(game.validate_checkpoint(), Ok(()));
}
