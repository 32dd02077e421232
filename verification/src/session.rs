//! Single-owner management commands: each manager runs one club, and requests
//! are answered with numbered receipts. A request ID answers at most one
//! request per manager: a replay returns the stored receipt, a different
//! request under the same ID is refused. Transfers go offer, seller review,
//! seller confirmation; a confirmation whose figures moved since the review
//! gets a fresh preview instead of a transfer. The host supplies identity and
//! time; neither belongs in a command payload.
use vstd::prelude::*;
use crate::text::{contains_text, is_blank, is_blank_spec, str_eq, sort_texts, text_order, text_views};
use crate::window::{DayWindow, WindowModel, window_closes, with_ready};

verus! {

#[derive(Debug, Clone, PartialEq, Eq)]
pub struct Club {
    pub id: String,
    pub name: String,
    pub balance: u64,
}

#[derive(Debug, Clone, PartialEq, Eq)]
pub struct Player {
    pub id: String,
    pub name: String,
    pub club_id: String,
}

#[derive(Debug, Clone, PartialEq, Eq)]
pub struct Manager {
    pub id: String,
    pub club_id: String,
}

/// A club's recovery regime between matches.
#[derive(Debug, Clone, Copy, PartialEq, Eq, Structural)]
pub enum RecoveryMode {
    Rest,
    Recovery,
}

#[derive(Debug, Clone, PartialEq, Eq)]
pub enum Command {
    SetRecovery { mode: RecoveryMode },
    SetLineup { player_ids: Vec<String> },
    Offer { player_id: String, fee: u64 },
    Review { offer_id: u64 },
    Confirm { preview_id: u64 },
    Reject { offer_id: u64 },
    Ready,
}

#[derive(Debug, Clone, PartialEq, Eq)]
pub struct Request {
    pub id: String,
    pub day: u32,
    pub command: Command,
}

#[derive(Debug, Clone, Copy, PartialEq, Eq, Structural)]
pub enum Error {
    InvalidSetup,
    Unauthorized,
    InvalidRequest,
    RequestIdReused,
    WrongDay,
    DayClosed,
    AlreadyReady,
    Unavailable,
    InsufficientFunds,
    InvalidFee,
    Overflow,
}

#[derive(Debug, Clone, Copy, PartialEq, Eq, Structural)]
pub enum OfferStatus {
    Pending,
    Accepted,
    Rejected,
    Withdrawn,
}

#[derive(Debug, Clone, PartialEq, Eq)]
pub struct Offer {
    pub id: u64,
    pub player_id: String,
    pub buyer: String,
    pub seller: String,
    pub fee: u64,
    pub status: OfferStatus,
}

/// Permission-filtered preview. Internal dependency values are never returned.
#[derive(Debug, Clone, PartialEq, Eq)]
pub struct Preview {
    pub id: u64,
    pub offer: Offer,
    pub seller_balance_after: u64,
}

#[derive(Debug, Clone, PartialEq, Eq)]
pub enum Outcome {
    RecoverySet,
    LineupSet,
    Offered(Offer),
    Preview(Preview),
    RefreshRequired(Preview),
    Transferred { offer_id: u64 },
    Rejected,
    Ready,
}

#[derive(Debug, PartialEq, Eq)]
pub struct Receipt {
    pub sequence: u64,
    pub result: Result<Outcome, Error>,
}

#[derive(Debug, Clone, PartialEq, Eq)]
pub struct PublicClub {
    pub id: String,
    pub name: String,
}

#[derive(Debug, Clone, PartialEq, Eq)]
pub struct PublicState {
    pub day: u32,
    pub clubs: Vec<PublicClub>,
    pub players: Vec<Player>,
}

#[derive(Debug, Clone, PartialEq, Eq)]
pub struct ManagerView {
    pub club: Club,
    pub offers: Vec<Offer>,
    pub ready: bool,
}

/// The figures a preview was computed from; a confirmation goes ahead only
/// while all of them are unchanged.
#[derive(Debug, Clone, Copy, PartialEq, Eq, Structural)]
pub struct Dependencies {
    pub buyer_balance: u64,
    pub seller_balance: u64,
    pub buyer_revision: u64,
    pub seller_revision: u64,
    pub player_revision: u64,
}

// ----- the records as values -----

pub struct ClubModel {
    pub id: Seq<char>,
    pub name: Seq<char>,
    pub balance: u64,
}

impl View for Club {
    type V = ClubModel;

    open spec fn view(&self) -> ClubModel {
        ClubModel { id: self.id@, name: self.name@, balance: self.balance }
    }
}

pub struct PlayerModel {
    pub id: Seq<char>,
    pub name: Seq<char>,
    pub club_id: Seq<char>,
}

impl View for Player {
    type V = PlayerModel;

    open spec fn view(&self) -> PlayerModel {
        PlayerModel { id: self.id@, name: self.name@, club_id: self.club_id@ }
    }
}

pub struct ManagerModel {
    pub id: Seq<char>,
    pub club_id: Seq<char>,
}

impl View for Manager {
    type V = ManagerModel;

    open spec fn view(&self) -> ManagerModel {
        ManagerModel { id: self.id@, club_id: self.club_id@ }
    }
}

pub enum CommandModel {
    SetRecovery(RecoveryMode),
    SetLineup(Seq<Seq<char>>),
    Offer(Seq<char>, u64),
    Review(u64),
    Confirm(u64),
    Reject(u64),
    Ready,
}

impl View for Command {
    type V = CommandModel;

    open spec fn view(&self) -> CommandModel {
        match self {
            Command::SetRecovery { mode } => CommandModel::SetRecovery(*mode),
            Command::SetLineup { player_ids } => CommandModel::SetLineup(text_views(player_ids@)),
            Command::Offer { player_id, fee } => CommandModel::Offer(player_id@, *fee),
            Command::Review { offer_id } => CommandModel::Review(*offer_id),
            Command::Confirm { preview_id } => CommandModel::Confirm(*preview_id),
            Command::Reject { offer_id } => CommandModel::Reject(*offer_id),
            Command::Ready => CommandModel::Ready,
        }
    }
}

pub struct RequestModel {
    pub id: Seq<char>,
    pub day: u32,
    pub command: CommandModel,
}

impl View for Request {
    type V = RequestModel;

    open spec fn view(&self) -> RequestModel {
        RequestModel { id: self.id@, day: self.day, command: self.command@ }
    }
}

pub struct OfferModel {
    pub id: u64,
    pub player_id: Seq<char>,
    pub buyer: Seq<char>,
    pub seller: Seq<char>,
    pub fee: u64,
    pub status: OfferStatus,
}

impl View for Offer {
    type V = OfferModel;

    open spec fn view(&self) -> OfferModel {
        OfferModel {
            id: self.id,
            player_id: self.player_id@,
            buyer: self.buyer@,
            seller: self.seller@,
            fee: self.fee,
            status: self.status,
        }
    }
}

pub struct PreviewModel {
    pub id: u64,
    pub offer: OfferModel,
    pub seller_balance_after: u64,
}

impl View for Preview {
    type V = PreviewModel;

    open spec fn view(&self) -> PreviewModel {
        PreviewModel { id: self.id, offer: self.offer@, seller_balance_after: self.seller_balance_after }
    }
}

pub enum OutcomeModel {
    RecoverySet,
    LineupSet,
    Offered(OfferModel),
    Preview(PreviewModel),
    RefreshRequired(PreviewModel),
    Transferred(u64),
    Rejected,
    Ready,
}

impl View for Outcome {
    type V = OutcomeModel;

    open spec fn view(&self) -> OutcomeModel {
        match self {
            Outcome::RecoverySet => OutcomeModel::RecoverySet,
            Outcome::LineupSet => OutcomeModel::LineupSet,
            Outcome::Offered(o) => OutcomeModel::Offered(o@),
            Outcome::Preview(p) => OutcomeModel::Preview(p@),
            Outcome::RefreshRequired(p) => OutcomeModel::RefreshRequired(p@),
            Outcome::Transferred { offer_id } => OutcomeModel::Transferred(*offer_id),
            Outcome::Rejected => OutcomeModel::Rejected,
            Outcome::Ready => OutcomeModel::Ready,
        }
    }
}

pub open spec fn outcome_result(r: Result<Outcome, Error>) -> Result<OutcomeModel, Error> {
    match r {
        Ok(o) => Ok(o@),
        Err(e) => Err(e),
    }
}

pub struct ReceiptModel {
    pub sequence: u64,
    pub result: Result<OutcomeModel, Error>,
}

impl View for Receipt {
    type V = ReceiptModel;

    open spec fn view(&self) -> ReceiptModel {
        ReceiptModel { sequence: self.sequence, result: outcome_result(self.result) }
    }
}

pub struct PublicClubModel {
    pub id: Seq<char>,
    pub name: Seq<char>,
}

impl View for PublicClub {
    type V = PublicClubModel;

    open spec fn view(&self) -> PublicClubModel {
        PublicClubModel { id: self.id@, name: self.name@ }
    }
}

// ----- keyed lookups over sequences -----

/// Index `i` holds the first entry whose key is `k`.
pub open spec fn first_with<T, K>(s: Seq<T>, key: spec_fn(T) -> K, k: K, i: int) -> bool {
    &&& 0 <= i < s.len()
    &&& key(s[i]) == k
    &&& forall|j: int| 0 <= j < i ==> key(#[trigger] s[j]) != k
}

/// The index of the first entry keyed `k`, if any: what a map lookup finds.
pub open spec fn find<T, K>(s: Seq<T>, key: spec_fn(T) -> K, k: K) -> Option<int> {
    if exists|i: int| first_with(s, key, k, i) {
        Some(choose|i: int| first_with(s, key, k, i))
    } else {
        None
    }
}

/// The first entry keyed `k` is the one a lookup finds.
pub proof fn lemma_find_at<T, K>(s: Seq<T>, key: spec_fn(T) -> K, k: K, i: int)
    requires
        first_with(s, key, k, i),
    ensures
        find(s, key, k) == Some(i),
{
    let j = choose|j: int| first_with(s, key, k, j);
    assert(first_with(s, key, k, j));
    if j < i {
        assert(key(s[j]) != k);
    } else if i < j {
        assert(key(s[i]) != k);
    }
}

/// A lookup finds nothing when no entry is keyed `k`.
pub proof fn lemma_find_none<T, K>(s: Seq<T>, key: spec_fn(T) -> K, k: K)
    requires
        forall|j: int| 0 <= j < s.len() ==> key(#[trigger] s[j]) != k,
    ensures
        find(s, key, k) is None,
{
    if exists|i: int| first_with(s, key, k, i) {
        let i = choose|i: int| first_with(s, key, k, i);
        assert(key(s[i]) == k);
    }
}

/// Whether some entry has key `k`.
pub open spec fn has_key<T, K>(s: Seq<T>, key: spec_fn(T) -> K, k: K) -> bool {
    exists|i: int| 0 <= i < s.len() && key(#[trigger] s[i]) == k
}

/// An entry keyed `k` exists exactly when a lookup finds one.
pub proof fn lemma_find_some<T, K>(s: Seq<T>, key: spec_fn(T) -> K, k: K)
    ensures
        find(s, key, k) is Some <==> has_key(s, key, k),
{
    if has_key(s, key, k) {
        let i = choose|i: int| 0 <= i < s.len() && key(#[trigger] s[i]) == k;
        lemma_find_prefix(s, key, k, i);
    } else {
        lemma_find_none(s, key, k);
    }
}

proof fn lemma_find_prefix<T, K>(s: Seq<T>, key: spec_fn(T) -> K, k: K, i: int)
    requires
        0 <= i < s.len(),
        key(s[i]) == k,
    ensures
        find(s, key, k) is Some,
    decreases i,
{
    if forall|j: int| 0 <= j < i ==> key(#[trigger] s[j]) != k {
        lemma_find_at(s, key, k, i);
    } else {
        let j = choose|j: int| 0 <= j < i && key(#[trigger] s[j]) == k;
        lemma_find_prefix(s, key, k, j);
    }
}

/// No two entries share a key.
pub open spec fn keys_unique<T, K>(s: Seq<T>, key: spec_fn(T) -> K) -> bool {
    forall|i: int, j: int| 0 <= i < j < s.len() ==> key(#[trigger] s[i]) != key(#[trigger] s[j])
}

/// With unique keys, the entry keyed `k` at `i` is the one a lookup finds.
pub proof fn lemma_find_unique<T, K>(s: Seq<T>, key: spec_fn(T) -> K, k: K, i: int)
    requires
        keys_unique(s, key),
        0 <= i < s.len(),
        key(s[i]) == k,
    ensures
        find(s, key, k) == Some(i),
{
    assert forall|j: int| 0 <= j < i implies key(#[trigger] s[j]) != k by {
        assert(key(s[j]) != key(s[i]));
    }
    lemma_find_at(s, key, k, i);
}

// ----- key functions -----

pub open spec fn club_key() -> spec_fn((ClubModel, u64)) -> Seq<char> {
    |e: (ClubModel, u64)| e.0.id
}

pub open spec fn player_key() -> spec_fn((PlayerModel, u64)) -> Seq<char> {
    |e: (PlayerModel, u64)| e.0.id
}

pub open spec fn manager_key() -> spec_fn(ManagerModel) -> Seq<char> {
    |m: ManagerModel| m.id
}

pub open spec fn offer_key() -> spec_fn(OfferModel) -> u64 {
    |o: OfferModel| o.id
}

pub open spec fn preview_key() -> spec_fn(StoredModel) -> u64 {
    |p: StoredModel| p.view.id
}

pub open spec fn receipt_key() -> spec_fn(ReceiptEntry) -> (Seq<char>, Seq<char>) {
    |r: ReceiptEntry| (r.actor, r.request.id)
}

pub open spec fn lineup_key() -> spec_fn((Seq<char>, Seq<Seq<char>>)) -> Seq<char> {
    |l: (Seq<char>, Seq<Seq<char>>)| l.0
}

pub open spec fn recovery_key() -> spec_fn((Seq<char>, RecoveryMode)) -> Seq<char> {
    |r: (Seq<char>, RecoveryMode)| r.0
}

/// `s` with the entry keyed `k` set to `v`: replaced where it exists, appended otherwise.
pub open spec fn upsert<T, K>(s: Seq<T>, key: spec_fn(T) -> K, k: K, v: T) -> Seq<T> {
    match find(s, key, k) {
        Some(i) => s.update(i, v),
        None => s.push(v),
    }
}

/// `s` without the first entry keyed `k`.
pub open spec fn remove_key<T, K>(s: Seq<T>, key: spec_fn(T) -> K, k: K) -> Seq<T> {
    match find(s, key, k) {
        Some(i) => s.remove(i),
        None => s,
    }
}

// ----- the whole state as values -----

pub struct StoredModel {
    pub actor: Seq<char>,
    pub day: u32,
    pub view: PreviewModel,
    pub dependencies: Dependencies,
}

pub struct ReceiptEntry {
    pub actor: Seq<char>,
    pub request: RequestModel,
    pub receipt: ReceiptModel,
}

/// A session as values. Clubs and players carry their revision counters;
/// every keyed collection answers lookups by its first entry with the key.
pub struct SessionModel {
    pub clubs: Seq<(ClubModel, u64)>,
    pub players: Seq<(PlayerModel, u64)>,
    pub managers: Seq<ManagerModel>,
    pub offers: Seq<OfferModel>,
    pub previews: Seq<StoredModel>,
    pub receipts: Seq<ReceiptEntry>,
    pub window: WindowModel,
    pub closed: bool,
    pub sequence: u64,
    pub lineups: Seq<(Seq<char>, Seq<Seq<char>>)>,
    pub recovery_modes: Seq<(Seq<char>, RecoveryMode)>,
    pub recovery_enabled: bool,
}

// ----- the state -----

struct ClubRecord {
    club: Club,
    revision: u64,
}

struct PlayerRecord {
    player: Player,
    revision: u64,
}

struct StoredPreview {
    actor: String,
    day: u32,
    view: Preview,
    dependencies: Dependencies,
}

struct ReceiptRecord {
    actor: String,
    request: Request,
    receipt: Receipt,
}

struct Lineup {
    club_id: String,
    player_ids: Vec<String>,
}

struct RecoveryChoice {
    club_id: String,
    mode: RecoveryMode,
}

/// The session's single owner of clubs, players, managers, offers, previews
/// and receipts. Call only from one authoritative dispatcher.
pub struct Management {
    clubs: Vec<ClubRecord>,
    players: Vec<PlayerRecord>,
    managers: Vec<Manager>,
    offers: Vec<Offer>,
    previews: Vec<StoredPreview>,
    receipts: Vec<ReceiptRecord>,
    window: DayWindow,
    closed: bool,
    sequence: u64,
    lineups: Vec<Lineup>,
    recovery_modes: Vec<RecoveryChoice>,
    recovery_enabled: bool,
}

spec fn club_entries(s: Seq<ClubRecord>) -> Seq<(ClubModel, u64)> {
    s.map_values(|r: ClubRecord| (r.club@, r.revision))
}

spec fn player_entries(s: Seq<PlayerRecord>) -> Seq<(PlayerModel, u64)> {
    s.map_values(|r: PlayerRecord| (r.player@, r.revision))
}

/// The managers as values.
pub open spec fn manager_models(s: Seq<Manager>) -> Seq<ManagerModel> {
    s.map_values(|m: Manager| m@)
}

/// The offers as values.
pub open spec fn offer_models(s: Seq<Offer>) -> Seq<OfferModel> {
    s.map_values(|o: Offer| o@)
}

spec fn stored_model(p: StoredPreview) -> StoredModel {
    StoredModel { actor: p.actor@, day: p.day, view: p.view@, dependencies: p.dependencies }
}

spec fn preview_entries(s: Seq<StoredPreview>) -> Seq<StoredModel> {
    s.map_values(|p: StoredPreview| stored_model(p))
}

spec fn receipt_entry(r: ReceiptRecord) -> ReceiptEntry {
    ReceiptEntry { actor: r.actor@, request: r.request@, receipt: r.receipt@ }
}

spec fn receipt_entries(s: Seq<ReceiptRecord>) -> Seq<ReceiptEntry> {
    s.map_values(|r: ReceiptRecord| receipt_entry(r))
}

spec fn lineup_entries(s: Seq<Lineup>) -> Seq<(Seq<char>, Seq<Seq<char>>)> {
    s.map_values(|l: Lineup| (l.club_id@, text_views(l.player_ids@)))
}

spec fn recovery_entries(s: Seq<RecoveryChoice>) -> Seq<(Seq<char>, RecoveryMode)> {
    s.map_values(|r: RecoveryChoice| (r.club_id@, r.mode))
}

impl View for Management {
    type V = SessionModel;

    closed spec fn view(&self) -> SessionModel {
        SessionModel {
            clubs: club_entries(self.clubs@),
            players: player_entries(self.players@),
            managers: manager_models(self.managers@),
            offers: offer_models(self.offers@),
            previews: preview_entries(self.previews@),
            receipts: receipt_entries(self.receipts@),
            window: self.window@,
            closed: self.closed,
            sequence: self.sequence,
            lineups: lineup_entries(self.lineups@),
            recovery_modes: recovery_entries(self.recovery_modes@),
            recovery_enabled: self.recovery_enabled,
        }
    }
}

/// A valid session: club, player and manager IDs are unique; every player,
/// manager and offer refers to clubs that exist; and offers are numbered in
/// increasing order, none beyond the current request number.
pub open spec fn session_valid(m: SessionModel) -> bool {
    &&& keys_unique(m.clubs, club_key())
    &&& keys_unique(m.players, player_key())
    &&& keys_unique(m.managers, manager_key())
    &&& forall|i: int| 0 <= i < m.players.len() ==> has_key(m.clubs, club_key(), (#[trigger] m.players[i]).0.club_id)
    &&& forall|i: int| 0 <= i < m.managers.len() ==> has_key(m.clubs, club_key(), (#[trigger] m.managers[i]).club_id)
    &&& forall|i: int|
        0 <= i < m.offers.len() ==> has_key(m.clubs, club_key(), (#[trigger] m.offers[i]).buyer) && has_key(
            m.clubs,
            club_key(),
            m.offers[i].seller,
        )
    &&& forall|i: int, j: int| 0 <= i < j < m.offers.len() ==> (#[trigger] m.offers[i]).id < (#[trigger] m.offers[j]).id
    &&& forall|i: int| 0 <= i < m.offers.len() ==> (#[trigger] m.offers[i]).id <= m.sequence
}

/// Every offer is older than the current request number.
pub open spec fn offers_fresh(m: SessionModel) -> bool {
    forall|i: int| 0 <= i < m.offers.len() ==> (#[trigger] m.offers[i]).id < m.sequence
}

/// IDs that are nonempty and pairwise different.
pub open spec fn distinct_nonempty(ids: Seq<Seq<char>>) -> bool {
    &&& forall|i: int| 0 <= i < ids.len() ==> (#[trigger] ids[i]).len() > 0
    &&& forall|i: int, j: int| 0 <= i < j < ids.len() ==> #[trigger] ids[i] != #[trigger] ids[j]
}

pub open spec fn club_ids(clubs: Seq<Club>) -> Seq<Seq<char>> {
    clubs.map_values(|c: Club| c.id@)
}

/// A setup is accepted when there is at least one club and one manager; club,
/// player and manager IDs and managers' clubs are each nonempty and distinct;
/// and every player and manager belongs to a listed club.
pub open spec fn setup_valid(clubs: Seq<Club>, players: Seq<Player>, managers: Seq<Manager>) -> bool {
    &&& clubs.len() > 0
    &&& managers.len() > 0
    &&& distinct_nonempty(club_ids(clubs))
    &&& distinct_nonempty(players.map_values(|p: Player| p.id@))
    &&& distinct_nonempty(managers.map_values(|m: Manager| m.id@))
    &&& distinct_nonempty(managers.map_values(|m: Manager| m.club_id@))
    &&& forall|i: int| 0 <= i < players.len() ==> club_ids(clubs).contains((#[trigger] players[i]).club_id@)
    &&& forall|i: int| 0 <= i < managers.len() ==> club_ids(clubs).contains((#[trigger] managers[i]).club_id@)
}

/// The session a valid setup opens: revisions at zero, nothing offered, day
/// `day` open until `deadline_ms`.
pub open spec fn initial_session(
    clubs: Seq<Club>,
    players: Seq<Player>,
    managers: Seq<Manager>,
    day: u32,
    deadline_ms: u64,
) -> SessionModel {
    SessionModel {
        clubs: clubs.map_values(|c: Club| (c@, 0u64)),
        players: players.map_values(|p: Player| (p@, 0u64)),
        managers: manager_models(managers),
        offers: Seq::empty(),
        previews: Seq::empty(),
        receipts: Seq::empty(),
        window: WindowModel { day, deadline_ms, ready: Seq::empty() },
        closed: false,
        sequence: 0,
        lineups: Seq::empty(),
        recovery_modes: Seq::empty(),
        recovery_enabled: false,
    }
}

/// The result a lookup index stands for.
pub open spec fn found(r: Option<usize>, f: Option<int>) -> bool {
    match r {
        Some(i) => f == Some(i as int),
        None => f is None,
    }
}

fn copy_texts(s: &Vec<String>) -> (r: Vec<String>)
    ensures
        text_views(r@) == text_views(s@),
{
    let mut out: Vec<String> = Vec::new();
    let mut i: usize = 0;
    while i < s.len()
        invariant
            i <= s@.len(),
            out@.len() == i,
            forall|j: int| 0 <= j < i ==> (#[trigger] out@[j])@ == s@[j]@,
        decreases s@.len() - i,
    {
        out.push(s[i].clone());
        i = i + 1;
    }
    assert(text_views(out@) =~= text_views(s@));
    out
}

fn copy_club(c: &Club) -> (r: Club)
    ensures
        r@ == c@,
{
    Club { id: c.id.clone(), name: c.name.clone(), balance: c.balance }
}

fn copy_player(p: &Player) -> (r: Player)
    ensures
        r@ == p@,
{
    Player { id: p.id.clone(), name: p.name.clone(), club_id: p.club_id.clone() }
}

fn copy_manager(m: &Manager) -> (r: Manager)
    ensures
        r@ == m@,
{
    Manager { id: m.id.clone(), club_id: m.club_id.clone() }
}

fn copy_offer(o: &Offer) -> (r: Offer)
    ensures
        r@ == o@,
{
    Offer {
        id: o.id,
        player_id: o.player_id.clone(),
        buyer: o.buyer.clone(),
        seller: o.seller.clone(),
        fee: o.fee,
        status: o.status,
    }
}

fn copy_preview(p: &Preview) -> (r: Preview)
    ensures
        r@ == p@,
{
    Preview { id: p.id, offer: copy_offer(&p.offer), seller_balance_after: p.seller_balance_after }
}

fn copy_outcome(o: &Outcome) -> (r: Outcome)
    ensures
        r@ == o@,
{
    match o {
        Outcome::RecoverySet => Outcome::RecoverySet,
        Outcome::LineupSet => Outcome::LineupSet,
        Outcome::Offered(x) => Outcome::Offered(copy_offer(x)),
        Outcome::Preview(p) => Outcome::Preview(copy_preview(p)),
        Outcome::RefreshRequired(p) => Outcome::RefreshRequired(copy_preview(p)),
        Outcome::Transferred { offer_id } => Outcome::Transferred { offer_id: *offer_id },
        Outcome::Rejected => Outcome::Rejected,
        Outcome::Ready => Outcome::Ready,
    }
}

fn copy_receipt(r: &Receipt) -> (c: Receipt)
    ensures
        c@ == r@,
{
    let result = match &r.result {
        Ok(o) => Ok(copy_outcome(o)),
        Err(e) => Err(*e),
    };
    Receipt { sequence: r.sequence, result }
}

impl Clone for Receipt {
    fn clone(&self) -> (r: Self)
        ensures
            r@ == self@,
    {
        copy_receipt(self)
    }
}

/// Whether two requests are the same request.
fn same_request(a: &Request, b: &Request) -> (r: bool)
    ensures
        r == (a@ == b@),
{
    if !str_eq(a.id.as_str(), b.id.as_str()) || a.day != b.day {
        return false;
    }
    match (&a.command, &b.command) {
        (Command::SetRecovery { mode: x }, Command::SetRecovery { mode: y }) => *x == *y,
        (Command::SetLineup { player_ids: x }, Command::SetLineup { player_ids: y }) => {
            if x.len() != y.len() {
                assert(text_views(x@).len() != text_views(y@).len());
                return false;
            }
            let mut i: usize = 0;
            while i < x.len()
                invariant
                    x@.len() == y@.len(),
                    i <= x@.len(),
                    a@.command == CommandModel::SetLineup(text_views(x@)),
                    b@.command == CommandModel::SetLineup(text_views(y@)),
                    forall|j: int| 0 <= j < i ==> (#[trigger] x@[j])@ == y@[j]@,
                decreases x@.len() - i,
            {
                if !str_eq(x[i].as_str(), y[i].as_str()) {
                    assert(text_views(x@)[i as int] != text_views(y@)[i as int]);
                    return false;
                }
                i = i + 1;
            }
            assert(text_views(x@) =~= text_views(y@));
            true
        },
        (Command::Offer { player_id: p, fee: f }, Command::Offer { player_id: q, fee: g }) => str_eq(
            p.as_str(),
            q.as_str(),
        ) && *f == *g,
        (Command::Review { offer_id: x }, Command::Review { offer_id: y }) => *x == *y,
        (Command::Confirm { preview_id: x }, Command::Confirm { preview_id: y }) => *x == *y,
        (Command::Reject { offer_id: x }, Command::Reject { offer_id: y }) => *x == *y,
        (Command::Ready, Command::Ready) => true,
        _ => false,
    }
}

/// Whether two offers are the same offer.
fn same_offer(a: &Offer, b: &Offer) -> (r: bool)
    ensures
        r == (a@ == b@),
{
    a.id == b.id && str_eq(a.player_id.as_str(), b.player_id.as_str()) && str_eq(
        a.buyer.as_str(),
        b.buyer.as_str(),
    ) && str_eq(a.seller.as_str(), b.seller.as_str()) && a.fee == b.fee && a.status == b.status
}

/// Whether `ids` are nonempty and pairwise different.
fn ids_distinct_nonempty(ids: &Vec<String>) -> (r: bool)
    ensures
        r == distinct_nonempty(text_views(ids@)),
{
    let ghost v = text_views(ids@);
    let mut i: usize = 0;
    while i < ids.len()
        invariant
            i <= ids@.len(),
            v == text_views(ids@),
            forall|a: int| 0 <= a < i ==> (#[trigger] v[a]).len() > 0,
            forall|a: int, b: int| 0 <= a < b < i ==> #[trigger] v[a] != #[trigger] v[b],
        decreases ids@.len() - i,
    {
        if ids[i].as_str().is_empty() {
            assert(v[i as int].len() == 0);
            return false;
        }
        let mut j: usize = 0;
        while j < i
            invariant
                i < ids@.len(),
                j <= i,
                v == text_views(ids@),
                forall|a: int| 0 <= a < j ==> v[a] != v[i as int],
            decreases i - j,
        {
            if str_eq(ids[j].as_str(), ids[i].as_str()) {
                assert(v[j as int] == v[i as int]);
                return false;
            }
            j = j + 1;
        }
        i = i + 1;
    }
    true
}



// ----- lookups -----

/// Whether `actor` manages a club.
pub open spec fn is_manager(m: SessionModel, actor: Seq<char>) -> bool {
    find(m.managers, manager_key(), actor) is Some
}

/// The club `actor` manages.
pub open spec fn manager_club(m: SessionModel, actor: Seq<char>) -> Seq<char> {
    m.managers[find(m.managers, manager_key(), actor)->0].club_id
}

/// The club with ID `id`, with its revision.
pub open spec fn club_at(m: SessionModel, id: Seq<char>) -> (ClubModel, u64) {
    m.clubs[find(m.clubs, club_key(), id)->0]
}

/// The player with ID `id`, with its revision.
pub open spec fn player_at(m: SessionModel, id: Seq<char>) -> (PlayerModel, u64) {
    m.players[find(m.players, player_key(), id)->0]
}

/// The IDs of the managers.
pub open spec fn manager_ids(m: SessionModel) -> Seq<Seq<char>> {
    m.managers.map_values(|x: ManagerModel| x.id)
}

/// Whether the day is (or becomes) closed at `now_ms`.
pub open spec fn closes(m: SessionModel, now_ms: u64) -> bool {
    m.closed || window_closes(m.window, now_ms, manager_ids(m))
}

/// The offers in which `club` buys or sells, in offer order.
pub open spec fn club_offers(offers: Seq<OfferModel>, club: Seq<char>) -> Seq<OfferModel> {
    offers.filter(|o: OfferModel| o.buyer == club || o.seller == club)
}

/// The lineup `club` has set, empty when none.
pub open spec fn lineup_of(m: SessionModel, club: Seq<char>) -> Seq<Seq<char>> {
    match find(m.lineups, lineup_key(), club) {
        Some(i) => m.lineups[i].1,
        None => Seq::empty(),
    }
}

/// The club IDs in text order.
pub open spec fn sorted_club_ids(m: SessionModel) -> Seq<Seq<char>> {
    m.clubs.map_values(|e: (ClubModel, u64)| e.0.id).sort_by(text_order())
}

/// The player IDs in text order.
pub open spec fn sorted_player_ids(m: SessionModel) -> Seq<Seq<char>> {
    m.players.map_values(|e: (PlayerModel, u64)| e.0.id).sort_by(text_order())
}

/// The public club list: every club's ID and name, in ID order.
pub open spec fn public_clubs(m: SessionModel) -> Seq<PublicClubModel> {
    sorted_club_ids(m).map_values(|id: Seq<char>| PublicClubModel { id, name: club_at(m, id).0.name })
}

/// The public player list: every player, in ID order.
pub open spec fn public_players(m: SessionModel) -> Seq<PlayerModel> {
    sorted_player_ids(m).map_values(|id: Seq<char>| player_at(m, id).0)
}

impl Management {
    fn club_pos(&self, id: &str) -> (r: Option<usize>)
        ensures
            found(r, find(self@.clubs, club_key(), id@)),
            r matches Some(i) ==> i < self.clubs@.len(),
    {
        let mut i: usize = 0;
        while i < self.clubs.len()
            invariant
                i <= self.clubs@.len(),
                forall|j: int| 0 <= j < i ==> (club_key())(#[trigger] self@.clubs[j]) != id@,
            decreases self.clubs@.len() - i,
        {
            if str_eq(self.clubs[i].club.id.as_str(), id) {
                proof {
                    lemma_find_at(self@.clubs, club_key(), id@, i as int);
                }
                return Some(i);
            }
            i = i + 1;
        }
        proof {
            lemma_find_none(self@.clubs, club_key(), id@);
        }
        None
    }

    fn player_pos(&self, id: &str) -> (r: Option<usize>)
        ensures
            found(r, find(self@.players, player_key(), id@)),
            r matches Some(i) ==> i < self.players@.len(),
    {
        let mut i: usize = 0;
        while i < self.players.len()
            invariant
                i <= self.players@.len(),
                forall|j: int| 0 <= j < i ==> (player_key())(#[trigger] self@.players[j]) != id@,
            decreases self.players@.len() - i,
        {
            if str_eq(self.players[i].player.id.as_str(), id) {
                proof {
                    lemma_find_at(self@.players, player_key(), id@, i as int);
                }
                return Some(i);
            }
            i = i + 1;
        }
        proof {
            lemma_find_none(self@.players, player_key(), id@);
        }
        None
    }

    fn manager_pos(&self, id: &str) -> (r: Option<usize>)
        ensures
            found(r, find(self@.managers, manager_key(), id@)),
            r matches Some(i) ==> i < self.managers@.len(),
    {
        let mut i: usize = 0;
        while i < self.managers.len()
            invariant
                i <= self.managers@.len(),
                forall|j: int| 0 <= j < i ==> (manager_key())(#[trigger] self@.managers[j]) != id@,
            decreases self.managers@.len() - i,
        {
            if str_eq(self.managers[i].id.as_str(), id) {
                proof {
                    lemma_find_at(self@.managers, manager_key(), id@, i as int);
                }
                return Some(i);
            }
            i = i + 1;
        }
        proof {
            lemma_find_none(self@.managers, manager_key(), id@);
        }
        None
    }

    fn offer_pos(&self, id: u64) -> (r: Option<usize>)
        ensures
            found(r, find(self@.offers, offer_key(), id)),
            r matches Some(i) ==> i < self.offers@.len(),
    {
        let mut i: usize = 0;
        while i < self.offers.len()
            invariant
                i <= self.offers@.len(),
                forall|j: int| 0 <= j < i ==> (offer_key())(#[trigger] self@.offers[j]) != id,
            decreases self.offers@.len() - i,
        {
            if self.offers[i].id == id {
                proof {
                    lemma_find_at(self@.offers, offer_key(), id, i as int);
                }
                return Some(i);
            }
            i = i + 1;
        }
        proof {
            lemma_find_none(self@.offers, offer_key(), id);
        }
        None
    }

    fn preview_pos(&self, id: u64) -> (r: Option<usize>)
        ensures
            found(r, find(self@.previews, preview_key(), id)),
            r matches Some(i) ==> i < self.previews@.len(),
    {
        let mut i: usize = 0;
        while i < self.previews.len()
            invariant
                i <= self.previews@.len(),
                forall|j: int| 0 <= j < i ==> (preview_key())(#[trigger] self@.previews[j]) != id,
            decreases self.previews@.len() - i,
        {
            if self.previews[i].view.id == id {
                proof {
                    lemma_find_at(self@.previews, preview_key(), id, i as int);
                }
                return Some(i);
            }
            i = i + 1;
        }
        proof {
            lemma_find_none(self@.previews, preview_key(), id);
        }
        None
    }

    fn receipt_pos(&self, actor: &str, request_id: &str) -> (r: Option<usize>)
        ensures
            found(r, find(self@.receipts, receipt_key(), (actor@, request_id@))),
            r matches Some(i) ==> i < self.receipts@.len(),
    {
        let mut i: usize = 0;
        while i < self.receipts.len()
            invariant
                i <= self.receipts@.len(),
                forall|j: int| 0 <= j < i ==> (receipt_key())(#[trigger] self@.receipts[j]) != (actor@, request_id@),
            decreases self.receipts@.len() - i,
        {
            if str_eq(self.receipts[i].actor.as_str(), actor) && str_eq(
                self.receipts[i].request.id.as_str(),
                request_id,
            ) {
                proof {
                    lemma_find_at(self@.receipts, receipt_key(), (actor@, request_id@), i as int);
                }
                return Some(i);
            }
            i = i + 1;
        }
        proof {
            lemma_find_none(self@.receipts, receipt_key(), (actor@, request_id@));
        }
        None
    }

    fn lineup_pos(&self, club: &str) -> (r: Option<usize>)
        ensures
            found(r, find(self@.lineups, lineup_key(), club@)),
            r matches Some(i) ==> i < self.lineups@.len(),
    {
        let mut i: usize = 0;
        while i < self.lineups.len()
            invariant
                i <= self.lineups@.len(),
                forall|j: int| 0 <= j < i ==> (lineup_key())(#[trigger] self@.lineups[j]) != club@,
            decreases self.lineups@.len() - i,
        {
            if str_eq(self.lineups[i].club_id.as_str(), club) {
                proof {
                    lemma_find_at(self@.lineups, lineup_key(), club@, i as int);
                }
                return Some(i);
            }
            i = i + 1;
        }
        proof {
            lemma_find_none(self@.lineups, lineup_key(), club@);
        }
        None
    }

    fn recovery_pos(&self, club: &str) -> (r: Option<usize>)
        ensures
            found(r, find(self@.recovery_modes, recovery_key(), club@)),
            r matches Some(i) ==> i < self.recovery_modes@.len(),
    {
        let mut i: usize = 0;
        while i < self.recovery_modes.len()
            invariant
                i <= self.recovery_modes@.len(),
                forall|j: int| 0 <= j < i ==> (recovery_key())(#[trigger] self@.recovery_modes[j]) != club@,
            decreases self.recovery_modes@.len() - i,
        {
            if str_eq(self.recovery_modes[i].club_id.as_str(), club) {
                proof {
                    lemma_find_at(self@.recovery_modes, recovery_key(), club@, i as int);
                }
                return Some(i);
            }
            i = i + 1;
        }
        proof {
            lemma_find_none(self@.recovery_modes, recovery_key(), club@);
        }
        None
    }

    /// The IDs of the managers, in manager order.
    fn manager_id_list(&self) -> (r: Vec<String>)
        ensures
            text_views(r@) == manager_ids(self@),
    {
        let mut out: Vec<String> = Vec::new();
        let mut i: usize = 0;
        while i < self.managers.len()
            invariant
                i <= self.managers@.len(),
                out@.len() == i,
                forall|j: int| 0 <= j < i ==> (#[trigger] out@[j])@ == self.managers@[j].id@,
            decreases self.managers@.len() - i,
        {
            out.push(self.managers[i].id.clone());
            i = i + 1;
        }
        assert(text_views(out@) =~= manager_ids(self@));
        out
    }
}


impl Management {
    /// Open a session. Refused with `InvalidSetup` unless [`setup_valid`] holds.
    pub fn new(
        clubs: Vec<Club>,
        players: Vec<Player>,
        managers: Vec<Manager>,
        day: u32,
        deadline_ms: u64,
    ) -> (r: Result<Management, Error>)
        ensures
            r.is_ok() <==> setup_valid(clubs@, players@, managers@),
            r matches Err(e) ==> e == Error::InvalidSetup,
            r matches Ok(m) ==> m@ == initial_session(clubs@, players@, managers@, day, deadline_ms)
                && session_valid(m@),
    {
        let mut club_id_list: Vec<String> = Vec::new();
        let mut i: usize = 0;
        while i < clubs.len()
            invariant
                i <= clubs@.len(),
                club_id_list@.len() == i,
                forall|j: int| 0 <= j < i ==> (#[trigger] club_id_list@[j])@ == clubs@[j].id@,
            decreases clubs@.len() - i,
        {
            club_id_list.push(clubs[i].id.clone());
            i = i + 1;
        }
        assert(text_views(club_id_list@) =~= club_ids(clubs@));
        let mut player_id_list: Vec<String> = Vec::new();
        let mut i: usize = 0;
        while i < players.len()
            invariant
                i <= players@.len(),
                player_id_list@.len() == i,
                forall|j: int| 0 <= j < i ==> (#[trigger] player_id_list@[j])@ == players@[j].id@,
            decreases players@.len() - i,
        {
            player_id_list.push(players[i].id.clone());
            i = i + 1;
        }
        assert(text_views(player_id_list@) =~= players@.map_values(|p: Player| p.id@));
        let mut manager_id_list: Vec<String> = Vec::new();
        let mut manager_club_list: Vec<String> = Vec::new();
        let mut i: usize = 0;
        while i < managers.len()
            invariant
                i <= managers@.len(),
                manager_id_list@.len() == i,
                manager_club_list@.len() == i,
                forall|j: int| 0 <= j < i ==> (#[trigger] manager_id_list@[j])@ == managers@[j].id@,
                forall|j: int| 0 <= j < i ==> (#[trigger] manager_club_list@[j])@ == managers@[j].club_id@,
            decreases managers@.len() - i,
        {
            manager_id_list.push(managers[i].id.clone());
            manager_club_list.push(managers[i].club_id.clone());
            i = i + 1;
        }
        assert(text_views(manager_id_list@) =~= managers@.map_values(|m: Manager| m.id@));
        assert(text_views(manager_club_list@) =~= managers@.map_values(|m: Manager| m.club_id@));
        if clubs.len() == 0 || managers.len() == 0 || !ids_distinct_nonempty(&club_id_list)
            || !ids_distinct_nonempty(&player_id_list) || !ids_distinct_nonempty(&manager_id_list)
            || !ids_distinct_nonempty(&manager_club_list) {
            return Err(Error::InvalidSetup);
        }
        let mut i: usize = 0;
        while i < players.len()
            invariant
                i <= players@.len(),
                text_views(club_id_list@) == club_ids(clubs@),
                forall|j: int| 0 <= j < i ==> club_ids(clubs@).contains((#[trigger] players@[j]).club_id@),
            decreases players@.len() - i,
        {
            if !contains_text(&club_id_list, players[i].club_id.as_str()) {
                return Err(Error::InvalidSetup);
            }
            i = i + 1;
        }
        let mut i: usize = 0;
        while i < managers.len()
            invariant
                i <= managers@.len(),
                text_views(club_id_list@) == club_ids(clubs@),
                forall|j: int| 0 <= j < i ==> club_ids(clubs@).contains((#[trigger] managers@[j]).club_id@),
            decreases managers@.len() - i,
        {
            if !contains_text(&club_id_list, managers[i].club_id.as_str()) {
                return Err(Error::InvalidSetup);
            }
            i = i + 1;
        }
        let mut club_records: Vec<ClubRecord> = Vec::new();
        let mut i: usize = 0;
        while i < clubs.len()
            invariant
                i <= clubs@.len(),
                club_records@.len() == i,
                forall|j: int| 0 <= j < i ==> (#[trigger] club_records@[j]).club@ == clubs@[j]@
                    && club_records@[j].revision == 0,
            decreases clubs@.len() - i,
        {
            club_records.push(ClubRecord { club: copy_club(&clubs[i]), revision: 0 });
            i = i + 1;
        }
        assert(club_entries(club_records@) =~= clubs@.map_values(|c: Club| (c@, 0u64)));
        let mut player_records: Vec<PlayerRecord> = Vec::new();
        let mut i: usize = 0;
        while i < players.len()
            invariant
                i <= players@.len(),
                player_records@.len() == i,
                forall|j: int| 0 <= j < i ==> (#[trigger] player_records@[j]).player@ == players@[j]@
                    && player_records@[j].revision == 0,
            decreases players@.len() - i,
        {
            player_records.push(PlayerRecord { player: copy_player(&players[i]), revision: 0 });
            i = i + 1;
        }
        assert(player_entries(player_records@) =~= players@.map_values(|p: Player| (p@, 0u64)));
        let m = Management {
            clubs: club_records,
            players: player_records,
            managers,
            offers: Vec::new(),
            previews: Vec::new(),
            receipts: Vec::new(),
            window: DayWindow::new(day, deadline_ms),
            closed: false,
            sequence: 0,
            lineups: Vec::new(),
            recovery_modes: Vec::new(),
            recovery_enabled: false,
        };
        proof {
            let ghost init = initial_session(clubs@, players@, managers@, day, deadline_ms);
            assert(offer_models(m.offers@) =~= Seq::<OfferModel>::empty());
            assert(preview_entries(m.previews@) =~= Seq::<StoredModel>::empty());
            assert(receipt_entries(m.receipts@) =~= Seq::<ReceiptEntry>::empty());
            assert(lineup_entries(m.lineups@) =~= Seq::<(Seq<char>, Seq<Seq<char>>)>::empty());
            assert(recovery_entries(m.recovery_modes@) =~= Seq::<(Seq<char>, RecoveryMode)>::empty());
            assert(m@ == init);
            let ids = club_ids(clubs@);
            assert forall|a: int, b: int| 0 <= a < b < init.clubs.len() implies (club_key())(
                #[trigger] init.clubs[a],
            ) != (club_key())(#[trigger] init.clubs[b]) by {
                assert(ids[a] != ids[b]);
            }
            let pids = players@.map_values(|p: Player| p.id@);
            assert forall|a: int, b: int| 0 <= a < b < init.players.len() implies (player_key())(
                #[trigger] init.players[a],
            ) != (player_key())(#[trigger] init.players[b]) by {
                assert(pids[a] != pids[b]);
            }
            let mids = managers@.map_values(|x: Manager| x.id@);
            assert forall|a: int, b: int| 0 <= a < b < init.managers.len() implies (manager_key())(
                #[trigger] init.managers[a],
            ) != (manager_key())(#[trigger] init.managers[b]) by {
                assert(mids[a] != mids[b]);
            }
            assert forall|k: int| 0 <= k < init.players.len() implies has_key(
                init.clubs,
                club_key(),
                (#[trigger] init.players[k]).0.club_id,
            ) by {
                assert(ids.contains(players@[k].club_id@));
                let c = choose|c: int| 0 <= c < ids.len() && ids[c] == players@[k].club_id@;
                assert((club_key())(init.clubs[c]) == players@[k].club_id@);
            }
            assert forall|k: int| 0 <= k < init.managers.len() implies has_key(
                init.clubs,
                club_key(),
                (#[trigger] init.managers[k]).club_id,
            ) by {
                assert(ids.contains(managers@[k].club_id@));
                let c = choose|c: int| 0 <= c < ids.len() && ids[c] == managers@[k].club_id@;
                assert((club_key())(init.clubs[c]) == managers@[k].club_id@);
            }
        }
        Ok(m)
    }

    /// The day, the clubs' IDs and names, and the players, each in ID order.
    pub fn public_state(&self) -> (s: PublicState)
        ensures
            s.day == self@.window.day,
            s.clubs@.map_values(|c: PublicClub| c@) == public_clubs(self@),
            s.players@.map_values(|p: Player| p@) == public_players(self@),
    {
        proof {
            crate::text::lemma_text_order_total();
        }
        let ghost club_id_view = self@.clubs.map_values(|e: (ClubModel, u64)| e.0.id);
        let mut ids: Vec<String> = Vec::new();
        let mut i: usize = 0;
        while i < self.clubs.len()
            invariant
                i <= self.clubs@.len(),
                ids@.len() == i,
                forall|j: int| 0 <= j < i ==> (#[trigger] ids@[j])@ == self.clubs@[j].club.id@,
            decreases self.clubs@.len() - i,
        {
            ids.push(self.clubs[i].club.id.clone());
            i = i + 1;
        }
        assert(text_views(ids@) =~= club_id_view);
        let sorted = sort_texts(&ids);
        proof {
            club_id_view.lemma_sort_by_ensures(text_order());
        }
        let mut clubs: Vec<PublicClub> = Vec::new();
        let mut k: usize = 0;
        while k < sorted.len()
            invariant
                k <= sorted@.len(),
                text_views(sorted@) == club_id_view.sort_by(text_order()),
                club_id_view == self@.clubs.map_values(|e: (ClubModel, u64)| e.0.id),
                forall|x: Seq<char>| !club_id_view.contains(x) ==> !(#[trigger] club_id_view.sort_by(
                    text_order(),
                ).contains(x)),
                clubs@.map_values(|c: PublicClub| c@) =~= public_clubs(self@).take(k as int),
            decreases sorted@.len() - k,
        {
            let id = sorted[k].as_str();
            proof {
                assert(text_views(sorted@)[k as int] == id@);
                assert(club_id_view.sort_by(text_order()).contains(id@));
                let c = choose|c: int| 0 <= c < club_id_view.len() && club_id_view[c] == id@;
                assert((club_key())(self@.clubs[c]) == id@);
                lemma_find_some(self@.clubs, club_key(), id@);
            }
            let pos = self.club_pos(id);
            match pos {
                Some(p) => {
                    clubs.push(PublicClub { id: sorted[k].clone(), name: self.clubs[p].club.name.clone() });
                },
                None => {
                    proof {
                        assert(false);
                    }
                },
            }
            proof {
                assert(public_clubs(self@).take(k as int + 1) =~= public_clubs(self@).take(k as int).push(
                    public_clubs(self@)[k as int],
                ));
            }
            k = k + 1;
        }
        let ghost player_id_view = self@.players.map_values(|e: (PlayerModel, u64)| e.0.id);
        let mut pids: Vec<String> = Vec::new();
        let mut i: usize = 0;
        while i < self.players.len()
            invariant
                i <= self.players@.len(),
                pids@.len() == i,
                forall|j: int| 0 <= j < i ==> (#[trigger] pids@[j])@ == self.players@[j].player.id@,
            decreases self.players@.len() - i,
        {
            pids.push(self.players[i].player.id.clone());
            i = i + 1;
        }
        assert(text_views(pids@) =~= player_id_view);
        let psorted = sort_texts(&pids);
        proof {
            player_id_view.lemma_sort_by_ensures(text_order());
        }
        let mut players: Vec<Player> = Vec::new();
        let mut k: usize = 0;
        while k < psorted.len()
            invariant
                k <= psorted@.len(),
                text_views(psorted@) == player_id_view.sort_by(text_order()),
                player_id_view == self@.players.map_values(|e: (PlayerModel, u64)| e.0.id),
                forall|x: Seq<char>| !player_id_view.contains(x) ==> !(#[trigger] player_id_view.sort_by(
                    text_order(),
                ).contains(x)),
                players@.map_values(|p: Player| p@) =~= public_players(self@).take(k as int),
            decreases psorted@.len() - k,
        {
            let id = psorted[k].as_str();
            proof {
                assert(text_views(psorted@)[k as int] == id@);
                assert(player_id_view.sort_by(text_order()).contains(id@));
                let c = choose|c: int| 0 <= c < player_id_view.len() && player_id_view[c] == id@;
                assert((player_key())(self@.players[c]) == id@);
                lemma_find_some(self@.players, player_key(), id@);
            }
            let pos = self.player_pos(id);
            match pos {
                Some(p) => {
                    players.push(copy_player(&self.players[p].player));
                },
                None => {
                    proof {
                        assert(false);
                    }
                },
            }
            proof {
                assert(public_players(self@).take(k as int + 1) =~= public_players(self@).take(k as int).push(
                    public_players(self@)[k as int],
                ));
            }
            k = k + 1;
        }
        proof {
            assert(public_clubs(self@).take(sorted@.len() as int) =~= public_clubs(self@));
            assert(public_players(self@).take(psorted@.len() as int) =~= public_players(self@));
        }
        PublicState { day: self.window.day(), clubs, players }
    }
}


impl Management {
    /// What `actor` sees: their club, the offers in which it buys or sells (in
    /// increasing ID order, see [`session_valid`]), and whether they are ready.
    /// `Unauthorized` for a non-manager.
    pub fn manager_view(&self, actor: &str) -> (r: Result<ManagerView, Error>)
        requires
            session_valid(self@),
        ensures
            r.is_err() <==> !is_manager(self@, actor@),
            r matches Err(e) ==> e == Error::Unauthorized,
            r matches Ok(v) ==> {
                let club = manager_club(self@, actor@);
                &&& v.club@ == club_at(self@, club).0
                &&& offer_models(v.offers@) == club_offers(self@.offers, club)
                &&& v.ready == self@.window.ready.contains(actor@)
            },
    {
        let mi = match self.manager_pos(actor) {
            Some(i) => i,
            None => return Err(Error::Unauthorized),
        };
        let club_id = self.managers[mi].club_id.as_str();
        proof {
            assert(self@.managers[mi as int].club_id == club_id@);
            let c = choose|c: int| 0 <= c < self@.clubs.len() && (club_key())(#[trigger] self@.clubs[c]) == club_id@;
            lemma_find_unique(self@.clubs, club_key(), club_id@, c);
        }
        let ci = match self.club_pos(club_id) {
            Some(i) => i,
            None => {
                proof {
                    assert(false);
                }
                return Err(Error::Unauthorized);
            },
        };
        let club = copy_club(&self.clubs[ci].club);
        let ghost pred = |o: OfferModel| o.buyer == club_id@ || o.seller == club_id@;
        let mut offers: Vec<Offer> = Vec::new();
        let mut i: usize = 0;
        while i < self.offers.len()
            invariant
                i <= self.offers@.len(),
                pred == (|o: OfferModel| o.buyer == club_id@ || o.seller == club_id@),
                offer_models(offers@) == self@.offers.take(i as int).filter(pred),
            decreases self.offers@.len() - i,
        {
            proof {
                reveal(Seq::filter);
                assert(self@.offers.take(i as int + 1).drop_last() =~= self@.offers.take(i as int));
                assert(self@.offers.take(i as int + 1).last() == self@.offers[i as int]);
            }
            let o = &self.offers[i];
            if str_eq(o.buyer.as_str(), club_id) || str_eq(o.seller.as_str(), club_id) {
                offers.push(copy_offer(o));
                assert(offer_models(offers@) =~= self@.offers.take(i as int).filter(pred).push(o@));
            }
            i = i + 1;
        }
        assert(self@.offers.take(self@.offers.len() as int) =~= self@.offers);
        let ready = self.window.is_ready(actor);
        Ok(ManagerView { club, offers, ready })
    }

    /// The lineup of `actor`'s club, empty when none was set.
    pub fn lineup(&self, actor: &str) -> (r: Result<Vec<String>, Error>)
        ensures
            r.is_err() <==> !is_manager(self@, actor@),
            r matches Err(e) ==> e == Error::Unauthorized,
            r matches Ok(v) ==> text_views(v@) == lineup_of(self@, manager_club(self@, actor@)),
    {
        let mi = match self.manager_pos(actor) {
            Some(i) => i,
            None => return Err(Error::Unauthorized),
        };
        match self.lineup_pos(self.managers[mi].club_id.as_str()) {
            Some(li) => Ok(copy_texts(&self.lineups[li].player_ids)),
            None => {
                let v: Vec<String> = Vec::new();
                assert(text_views(v@) =~= Seq::<Seq<char>>::empty());
                Ok(v)
            },
        }
    }

    /// Whether the day is closed, closing it at the deadline or once every
    /// manager is ready. A closed day stays closed until the next day opens.
    pub fn closed(&mut self, now_ms: u64) -> (r: bool)
        ensures
            r == closes(old(self)@, now_ms),
            final(self)@ == (SessionModel { closed: r, ..old(self)@ }),
    {
        let ids = self.manager_id_list();
        let closes_now = self.window.closes(now_ms, &ids);
        self.closed = self.closed || closes_now;
        self.closed
    }
}


// ----- what each command does -----

/// Whether `actor` has declared ready today.
pub open spec fn is_ready(m: SessionModel, actor: Seq<char>) -> bool {
    m.window.ready.contains(actor)
}

/// A valid lineup: eleven different players, all of `club`.
pub open spec fn lineup_ok(m: SessionModel, club: Seq<char>, ids: Seq<Seq<char>>) -> bool {
    &&& ids.len() == 11
    &&& forall|a: int, b: int| 0 <= a < b < ids.len() ==> #[trigger] ids[a] != #[trigger] ids[b]
    &&& forall|a: int|
        0 <= a < ids.len() ==> find(m.players, player_key(), #[trigger] ids[a]) is Some && player_at(
            m,
            ids[a],
        ).0.club_id == club
}

/// The pending offer `id` in which `actor`'s club sells.
pub open spec fn seller_offer(m: SessionModel, actor: Seq<char>, id: u64) -> Result<OfferModel, Error> {
    match find(m.offers, offer_key(), id) {
        Some(i) => if m.offers[i].seller == manager_club(m, actor) && m.offers[i].status
            == OfferStatus::Pending {
            Ok(m.offers[i])
        } else {
            Err(Error::Unavailable)
        },
        None => Err(Error::Unavailable),
    }
}

/// The figures a transfer of `o` depends on, or why it cannot go ahead: the
/// player must still be the seller's, the buyer must afford the fee, and the
/// seller's balance must hold it.
pub open spec fn dependencies(m: SessionModel, o: OfferModel) -> Result<Dependencies, Error> {
    match find(m.players, player_key(), o.player_id) {
        None => Err(Error::Unavailable),
        Some(pi) => if m.players[pi].0.club_id != o.seller {
            Err(Error::Unavailable)
        } else {
            let buyer = club_at(m, o.buyer);
            let seller = club_at(m, o.seller);
            if buyer.0.balance < o.fee {
                Err(Error::InsufficientFunds)
            } else if seller.0.balance + o.fee > u64::MAX {
                Err(Error::Overflow)
            } else {
                Ok(
                    Dependencies {
                        buyer_balance: buyer.0.balance,
                        seller_balance: seller.0.balance,
                        buyer_revision: buyer.1,
                        seller_revision: seller.1,
                        player_revision: m.players[pi].1,
                    },
                )
            }
        },
    }
}

/// Store a preview of `o` for `actor`, numbered by the current sequence.
pub open spec fn preview_step(m: SessionModel, actor: Seq<char>, o: OfferModel) -> (SessionModel, Result<PreviewModel, Error>) {
    match dependencies(m, o) {
        Err(e) => (m, Err(e)),
        Ok(d) => {
            let view = PreviewModel { id: m.sequence, offer: o, seller_balance_after: (d.seller_balance + o.fee) as u64 };
            let stored = StoredModel { actor, day: m.window.day, view, dependencies: d };
            (SessionModel { previews: upsert(m.previews, preview_key(), m.sequence, stored), ..m }, Ok(view))
        },
    }
}

/// Club entry `i` with its balance set to `balance`.
pub open spec fn with_balance(clubs: Seq<(ClubModel, u64)>, i: int, balance: int) -> Seq<(ClubModel, u64)> {
    clubs.update(i, (ClubModel { balance: balance as u64, ..clubs[i].0 }, clubs[i].1))
}

/// Club entry `i` with its revision set to `revision`.
pub open spec fn with_revision(clubs: Seq<(ClubModel, u64)>, i: int, revision: int) -> Seq<(ClubModel, u64)> {
    clubs.update(i, (clubs[i].0, revision as u64))
}

/// The offer after `o` is confirmed: it is accepted, every other pending offer
/// for the same player is withdrawn.
pub open spec fn settle_offer(x: OfferModel, o: OfferModel) -> OfferModel {
    if x.player_id == o.player_id && x.status == OfferStatus::Pending {
        OfferModel { status: if x.id == o.id { OfferStatus::Accepted } else { OfferStatus::Withdrawn }, ..x }
    } else {
        x
    }
}

/// The session after the transfer of `o` goes through: the fee moves from
/// buyer to seller, both clubs and the player get new revisions, the player
/// joins the buyer, the offers for the player are settled, and the preview is
/// used up.
pub open spec fn transfer(m: SessionModel, o: OfferModel, d: Dependencies, preview_id: u64) -> SessionModel {
    let bi = find(m.clubs, club_key(), o.buyer)->0;
    let si = find(m.clubs, club_key(), o.seller)->0;
    let c1 = with_balance(m.clubs, bi, m.clubs[bi].0.balance - o.fee);
    let c2 = with_balance(c1, si, c1[si].0.balance + o.fee);
    let c3 = with_revision(c2, bi, d.buyer_revision + 1);
    let c4 = with_revision(c3, si, d.seller_revision + 1);
    let pi = find(m.players, player_key(), o.player_id)->0;
    SessionModel {
        clubs: c4,
        players: m.players.update(
            pi,
            (PlayerModel { club_id: o.buyer, ..m.players[pi].0 }, (d.player_revision + 1) as u64),
        ),
        offers: m.offers.map_values(|x: OfferModel| settle_offer(x, o)),
        previews: remove_key(m.previews, preview_key(), preview_id),
        ..m
    }
}

/// A confirmation: only the reviewing manager, on the review's day, while the
/// offer is still pending for their club. Figures that moved since the review
/// give a fresh preview (the old one is dropped) instead of a transfer.
pub open spec fn confirm_step(m: SessionModel, actor: Seq<char>, preview_id: u64) -> (SessionModel, Result<OutcomeModel, Error>) {
    match find(m.previews, preview_key(), preview_id) {
        None => (m, Err(Error::Unavailable)),
        Some(k) => {
            let stored = m.previews[k];
            if stored.actor != actor || stored.day != m.window.day {
                (m, Err(Error::Unavailable))
            } else {
                match seller_offer(m, actor, stored.view.offer.id) {
                    Err(e) => (m, Err(e)),
                    Ok(o) => match dependencies(m, o) {
                        Err(e) => (m, Err(e)),
                        Ok(d) => if d != stored.dependencies || o != stored.view.offer {
                            let (m1, r) = preview_step(m, actor, o);
                            match r {
                                Err(e) => (m1, Err(e)),
                                Ok(v) => (
                                    SessionModel { previews: remove_key(m1.previews, preview_key(), preview_id), ..m1 },
                                    Ok(OutcomeModel::RefreshRequired(v)),
                                ),
                            }
                        } else if d.buyer_revision == u64::MAX || d.seller_revision == u64::MAX
                            || d.player_revision == u64::MAX {
                            (m, Err(Error::Overflow))
                        } else {
                            (transfer(m, o, d, preview_id), Ok(OutcomeModel::Transferred(o.id)))
                        },
                    },
                }
            }
        },
    }
}

/// A new offer by `actor`'s club for a player of another club, numbered by the
/// current sequence. Refused once ready, for a zero fee, for a fee above the
/// buyer's balance, and for an unknown or own player.
pub open spec fn offer_step(m: SessionModel, actor: Seq<char>, player_id: Seq<char>, fee: u64) -> (SessionModel, Result<OutcomeModel, Error>) {
    let club = manager_club(m, actor);
    if is_ready(m, actor) {
        (m, Err(Error::AlreadyReady))
    } else if fee == 0 {
        (m, Err(Error::InvalidFee))
    } else if club_at(m, club).0.balance < fee {
        (m, Err(Error::InsufficientFunds))
    } else {
        match find(m.players, player_key(), player_id) {
            None => (m, Err(Error::Unavailable)),
            Some(pi) => if m.players[pi].0.club_id == club {
                (m, Err(Error::Unavailable))
            } else {
                let offer = OfferModel {
                    id: m.sequence,
                    player_id,
                    buyer: club,
                    seller: m.players[pi].0.club_id,
                    fee,
                    status: OfferStatus::Pending,
                };
                (SessionModel { offers: upsert(m.offers, offer_key(), m.sequence, offer), ..m }, Ok(OutcomeModel::Offered(offer)))
            },
        }
    }
}

/// What command `c` of `actor` does to the session, and its outcome.
pub open spec fn executed(m: SessionModel, actor: Seq<char>, c: CommandModel) -> (SessionModel, Result<OutcomeModel, Error>) {
    let club = manager_club(m, actor);
    match c {
        CommandModel::SetRecovery(mode) => if !m.recovery_enabled {
            (m, Err(Error::Unavailable))
        } else if is_ready(m, actor) {
            (m, Err(Error::AlreadyReady))
        } else {
            (
                SessionModel { recovery_modes: upsert(m.recovery_modes, recovery_key(), club, (club, mode)), ..m },
                Ok(OutcomeModel::RecoverySet),
            )
        },
        CommandModel::SetLineup(ids) => if is_ready(m, actor) {
            (m, Err(Error::AlreadyReady))
        } else if !lineup_ok(m, club, ids) {
            (m, Err(Error::Unavailable))
        } else {
            (SessionModel { lineups: upsert(m.lineups, lineup_key(), club, (club, ids)), ..m }, Ok(OutcomeModel::LineupSet))
        },
        CommandModel::Ready => (
            SessionModel { window: WindowModel { ready: with_ready(m.window.ready, actor), ..m.window }, ..m },
            Ok(OutcomeModel::Ready),
        ),
        CommandModel::Offer(player_id, fee) => offer_step(m, actor, player_id, fee),
        CommandModel::Review(id) => match seller_offer(m, actor, id) {
            Err(e) => (m, Err(e)),
            Ok(o) => {
                let (m1, r) = preview_step(m, actor, o);
                match r {
                    Err(e) => (m1, Err(e)),
                    Ok(v) => (m1, Ok(OutcomeModel::Preview(v))),
                }
            },
        },
        CommandModel::Reject(id) => match seller_offer(m, actor, id) {
            Err(e) => (m, Err(e)),
            Ok(o) => {
                let i = find(m.offers, offer_key(), id)->0;
                (
                    SessionModel { offers: m.offers.update(i, OfferModel { status: OfferStatus::Rejected, ..m.offers[i] }), ..m },
                    Ok(OutcomeModel::Rejected),
                )
            },
        },
        CommandModel::Confirm(preview_id) => confirm_step(m, actor, preview_id),
    }
}

/// A request of `actor` at `now_ms`: refused outright for a non-manager or an
/// empty ID; a known ID returns its stored receipt for the same request and is
/// refused for another; otherwise the request is numbered, answered (wrong day,
/// closed day, or the command's outcome), and its receipt stored.
pub open spec fn dispatched(m: SessionModel, actor: Seq<char>, request: RequestModel, now_ms: u64) -> (SessionModel, Result<ReceiptModel, Error>) {
    if !is_manager(m, actor) {
        (m, Err(Error::Unauthorized))
    } else if request.id.len() == 0 {
        (m, Err(Error::InvalidRequest))
    } else {
        match find(m.receipts, receipt_key(), (actor, request.id)) {
            Some(i) => if m.receipts[i].request == request {
                (m, Ok(m.receipts[i].receipt))
            } else {
                (m, Err(Error::RequestIdReused))
            },
            None => if m.sequence == u64::MAX {
                (m, Err(Error::Overflow))
            } else {
                let m1 = SessionModel { sequence: (m.sequence + 1) as u64, ..m };
                let (m2, result) = if request.day != m1.window.day {
                    (m1, Err(Error::WrongDay))
                } else if closes(m1, now_ms) {
                    (SessionModel { closed: true, ..m1 }, Err(Error::DayClosed))
                } else {
                    executed(m1, actor, request.command)
                };
                let receipt = ReceiptModel { sequence: m1.sequence, result };
                let m3 = SessionModel {
                    receipts: m2.receipts.push(ReceiptEntry { actor, request, receipt }),
                    ..m2
                };
                (SessionModel { closed: closes(m3, now_ms), ..m3 }, Ok(receipt))
            },
        }
    }
}

pub open spec fn receipt_result(r: Result<Receipt, Error>) -> Result<ReceiptModel, Error> {
    match r {
        Ok(x) => Ok(x@),
        Err(e) => Err(e),
    }
}

pub open spec fn preview_result(r: Result<Preview, Error>) -> Result<PreviewModel, Error> {
    match r {
        Ok(x) => Ok(x@),
        Err(e) => Err(e),
    }
}


/// Sequences whose entries have the same keys, position by position, answer
/// every lookup alike.
pub proof fn lemma_same_keys<T, K>(a: Seq<T>, b: Seq<T>, key: spec_fn(T) -> K)
    requires
        a.len() == b.len(),
        forall|i: int| 0 <= i < a.len() ==> key(#[trigger] a[i]) == key(b[i]),
    ensures
        forall|k: K| find(a, key, k) == find(b, key, k),
        forall|k: K| has_key(a, key, k) == has_key(b, key, k),
        keys_unique(a, key) == keys_unique(b, key),
{
    assert forall|k: K| find(a, key, k) == find(b, key, k) by {
        if exists|i: int| first_with(a, key, k, i) {
            let i = choose|i: int| first_with(a, key, k, i);
            assert forall|j: int| 0 <= j < i implies key(#[trigger] b[j]) != k by {
                assert(key(a[j]) != k);
            }
            lemma_find_at(a, key, k, i);
            lemma_find_at(b, key, k, i);
        } else if exists|i: int| first_with(b, key, k, i) {
            let i = choose|i: int| first_with(b, key, k, i);
            assert forall|j: int| 0 <= j < i implies key(#[trigger] a[j]) != k by {
                assert(key(b[j]) != k);
            }
            assert(first_with(a, key, k, i));
        }
    }
    assert forall|k: K| has_key(a, key, k) == has_key(b, key, k) by {
        if has_key(a, key, k) {
            let i = choose|i: int| 0 <= i < a.len() && key(#[trigger] a[i]) == k;
            assert(key(b[i]) == k);
        }
        if has_key(b, key, k) {
            let i = choose|i: int| 0 <= i < b.len() && key(#[trigger] b[i]) == k;
            assert(key(a[i]) == k);
        }
    }
    if keys_unique(a, key) {
        assert forall|i: int, j: int| 0 <= i < j < b.len() implies key(#[trigger] b[i]) != key(#[trigger] b[j]) by {
            assert(key(a[i]) != key(a[j]));
        }
    }
    if keys_unique(b, key) {
        assert forall|i: int, j: int| 0 <= i < j < a.len() implies key(#[trigger] a[i]) != key(#[trigger] a[j]) by {
            assert(key(b[i]) != key(b[j]));
        }
    }
}

/// A valid session stays valid when only lineups, recovery modes, previews,
/// receipts, the window, the sequence or the closed flag change.
proof fn lemma_valid_frame(m: SessionModel, n: SessionModel)
    requires
        session_valid(m),
        n.clubs == m.clubs,
        n.players == m.players,
        n.managers == m.managers,
        n.offers == m.offers,
        n.sequence >= m.sequence,
    ensures
        session_valid(n),
{
}

impl Management {
    /// The club `actor` manages (a manager of a valid session).
    fn club_of(&self, actor: &str) -> (club: String)
        requires
            is_manager(self@, actor@),
        ensures
            club@ == manager_club(self@, actor@),
    {
        match self.manager_pos(actor) {
            Some(i) => self.managers[i].club_id.clone(),
            None => {
                proof {
                    assert(false);
                }
                String::new()
            },
        }
    }

    /// Whether `ids` is a valid lineup for `club`.
    fn lineup_valid(&self, club: &str, ids: &Vec<String>) -> (r: bool)
        ensures
            r == lineup_ok(self@, club@, text_views(ids@)),
    {
        let ghost v = text_views(ids@);
        if ids.len() != 11 {
            return false;
        }
        let mut a: usize = 0;
        while a < ids.len()
            invariant
                ids@.len() == 11,
                v == text_views(ids@),
                a <= ids@.len(),
                forall|x: int, y: int| 0 <= x < y < a ==> #[trigger] v[x] != #[trigger] v[y],
            decreases ids@.len() - a,
        {
            let mut b: usize = 0;
            while b < a
                invariant
                    a < ids@.len(),
                    b <= a,
                    v == text_views(ids@),
                    forall|x: int| 0 <= x < b ==> v[x] != v[a as int],
                decreases a - b,
            {
                if str_eq(ids[b].as_str(), ids[a].as_str()) {
                    assert(v[b as int] == v[a as int]);
                    return false;
                }
                b = b + 1;
            }
            a = a + 1;
        }
        let mut a: usize = 0;
        while a < ids.len()
            invariant
                ids@.len() == 11,
                v == text_views(ids@),
                a <= ids@.len(),
                forall|x: int, y: int| 0 <= x < y < ids@.len() ==> #[trigger] v[x] != #[trigger] v[y],
                forall|x: int|
                    0 <= x < a ==> find(self@.players, player_key(), #[trigger] v[x]) is Some && player_at(
                        self@,
                        v[x],
                    ).0.club_id == club@,
            decreases ids@.len() - a,
        {
            assert(v[a as int] == ids@[a as int]@);
            match self.player_pos(ids[a].as_str()) {
                None => {
                    return false;
                },
                Some(p) => {
                    if !str_eq(self.players[p].player.club_id.as_str(), club) {
                        return false;
                    }
                },
            }
            a = a + 1;
        }
        true
    }

    fn set_recovery(&mut self, actor: &str, mode: RecoveryMode) -> (r: Result<Outcome, Error>)
        requires
            session_valid(old(self)@),
            is_manager(old(self)@, actor@),
        ensures
            (final(self)@, outcome_result(r)) == executed(old(self)@, actor@, CommandModel::SetRecovery(mode)),
    {
        if !self.recovery_enabled {
            return Err(Error::Unavailable);
        }
        if self.window.is_ready(actor) {
            return Err(Error::AlreadyReady);
        }
        let club = self.club_of(actor);
        let ghost before = self@;
        match self.recovery_pos(club.as_str()) {
            Some(i) => {
                self.recovery_modes.set(i, RecoveryChoice { club_id: club, mode });
            },
            None => {
                self.recovery_modes.push(RecoveryChoice { club_id: club, mode });
            },
        }
        proof {
            let c = manager_club(before, actor@);
            assert(self@.recovery_modes =~= upsert(before.recovery_modes, recovery_key(), c, (c, mode)));
            assert(self@ == SessionModel {
                recovery_modes: upsert(before.recovery_modes, recovery_key(), c, (c, mode)),
                ..before
            });
        }
        Ok(Outcome::RecoverySet)
    }

    fn set_lineup(&mut self, actor: &str, player_ids: &Vec<String>) -> (r: Result<Outcome, Error>)
        requires
            session_valid(old(self)@),
            is_manager(old(self)@, actor@),
        ensures
            (final(self)@, outcome_result(r)) == executed(
                old(self)@,
                actor@,
                CommandModel::SetLineup(text_views(player_ids@)),
            ),
    {
        if self.window.is_ready(actor) {
            return Err(Error::AlreadyReady);
        }
        let club = self.club_of(actor);
        if !self.lineup_valid(club.as_str(), player_ids) {
            return Err(Error::Unavailable);
        }
        let ghost before = self@;
        let ids = copy_texts(player_ids);
        match self.lineup_pos(club.as_str()) {
            Some(i) => {
                self.lineups.set(i, Lineup { club_id: club, player_ids: ids });
            },
            None => {
                self.lineups.push(Lineup { club_id: club, player_ids: ids });
            },
        }
        proof {
            let c = manager_club(before, actor@);
            let entry = (c, text_views(player_ids@));
            assert(self@.lineups =~= upsert(before.lineups, lineup_key(), c, entry));
            assert(self@ == SessionModel { lineups: upsert(before.lineups, lineup_key(), c, entry), ..before });
        }
        Ok(Outcome::LineupSet)
    }

    fn make_offer(&mut self, actor: &str, player_id: &String, fee: u64) -> (r: Result<Outcome, Error>)
        requires
            session_valid(old(self)@),
            offers_fresh(old(self)@),
            is_manager(old(self)@, actor@),
        ensures
            (final(self)@, outcome_result(r)) == offer_step(old(self)@, actor@, player_id@, fee),
            session_valid(final(self)@),
    {
        if self.window.is_ready(actor) {
            return Err(Error::AlreadyReady);
        }
        if fee == 0 {
            return Err(Error::InvalidFee);
        }
        let club = self.club_of(actor);
        let ghost m = self@;
        proof {
            let mi = find(m.managers, manager_key(), actor@)->0;
            assert(has_key(m.clubs, club_key(), m.managers[mi].club_id));
            let c = choose|c: int| 0 <= c < m.clubs.len() && (club_key())(#[trigger] m.clubs[c]) == club@;
            lemma_find_unique(m.clubs, club_key(), club@, c);
        }
        let ci = match self.club_pos(club.as_str()) {
            Some(i) => i,
            None => {
                proof {
                    assert(false);
                }
                return Err(Error::Unavailable);
            },
        };
        if self.clubs[ci].club.balance < fee {
            return Err(Error::InsufficientFunds);
        }
        let pi = match self.player_pos(player_id.as_str()) {
            Some(i) => i,
            None => return Err(Error::Unavailable),
        };
        if str_eq(self.players[pi].player.club_id.as_str(), club.as_str()) {
            return Err(Error::Unavailable);
        }
        let offer = Offer {
            id: self.sequence,
            player_id: player_id.clone(),
            buyer: club,
            seller: self.players[pi].player.club_id.clone(),
            fee,
            status: OfferStatus::Pending,
        };
        let stored = copy_offer(&offer);
        proof {
            lemma_find_none(m.offers, offer_key(), m.sequence);
        }
        self.offers.push(stored);
        proof {
            let o = offer@;
            assert(self@.offers =~= upsert(m.offers, offer_key(), m.sequence, o));
            assert(self@ == SessionModel { offers: upsert(m.offers, offer_key(), m.sequence, o), ..m });
            assert(has_key(m.clubs, club_key(), o.buyer));
            assert(has_key(m.clubs, club_key(), o.seller));
            assert forall|i: int| 0 <= i < self@.offers.len() implies has_key(
                self@.clubs,
                club_key(),
                (#[trigger] self@.offers[i]).buyer,
            ) && has_key(self@.clubs, club_key(), self@.offers[i].seller) by {
                if i < m.offers.len() && self@.offers[i] != o {
                    assert(self@.offers[i] == m.offers[i]);
                }
            }
        }
        Ok(Outcome::Offered(offer))
    }
}


impl Management {
    /// The pending offer `id` in which `actor`'s club sells.
    fn seller_offer(&self, actor: &str, id: u64) -> (r: Result<Offer, Error>)
        requires
            is_manager(self@, actor@),
        ensures
            match (r, seller_offer(self@, actor@, id)) {
                (Ok(o), Ok(x)) => o@ == x,
                (Err(e), Err(x)) => e == x,
                _ => false,
            },
    {
        let club = self.club_of(actor);
        match self.offer_pos(id) {
            Some(i) => {
                let o = &self.offers[i];
                if str_eq(o.seller.as_str(), club.as_str()) && o.status == OfferStatus::Pending {
                    Ok(copy_offer(o))
                } else {
                    Err(Error::Unavailable)
                }
            },
            None => Err(Error::Unavailable),
        }
    }

    /// The figures a transfer of `o` depends on.
    fn dependencies(&self, o: &Offer) -> (r: Result<Dependencies, Error>)
        requires
            session_valid(self@),
            has_key(self@.clubs, club_key(), o@.buyer),
            has_key(self@.clubs, club_key(), o@.seller),
        ensures
            r == dependencies(self@, o@),
    {
        let m = Ghost(self@);
        proof {
            let b = choose|c: int| 0 <= c < m@.clubs.len() && (club_key())(#[trigger] m@.clubs[c]) == o@.buyer;
            lemma_find_unique(m@.clubs, club_key(), o@.buyer, b);
            let s = choose|c: int| 0 <= c < m@.clubs.len() && (club_key())(#[trigger] m@.clubs[c]) == o@.seller;
            lemma_find_unique(m@.clubs, club_key(), o@.seller, s);
        }
        let pi = match self.player_pos(o.player_id.as_str()) {
            Some(i) => i,
            None => return Err(Error::Unavailable),
        };
        if !str_eq(self.players[pi].player.club_id.as_str(), o.seller.as_str()) {
            return Err(Error::Unavailable);
        }
        let bi = match self.club_pos(o.buyer.as_str()) {
            Some(i) => i,
            None => {
                proof {
                    assert(false);
                }
                return Err(Error::Unavailable);
            },
        };
        let si = match self.club_pos(o.seller.as_str()) {
            Some(i) => i,
            None => {
                proof {
                    assert(false);
                }
                return Err(Error::Unavailable);
            },
        };
        let buyer = &self.clubs[bi];
        let seller = &self.clubs[si];
        if buyer.club.balance < o.fee {
            return Err(Error::InsufficientFunds);
        }
        if seller.club.balance > u64::MAX - o.fee {
            return Err(Error::Overflow);
        }
        Ok(
            Dependencies {
                buyer_balance: buyer.club.balance,
                seller_balance: seller.club.balance,
                buyer_revision: buyer.revision,
                seller_revision: seller.revision,
                player_revision: self.players[pi].revision,
            },
        )
    }

    /// Store and return a preview of `o` for `actor`.
    fn preview(&mut self, actor: &str, o: Offer) -> (r: Result<Preview, Error>)
        requires
            session_valid(old(self)@),
            has_key(old(self)@.clubs, club_key(), o@.buyer),
            has_key(old(self)@.clubs, club_key(), o@.seller),
        ensures
            (final(self)@, preview_result(r)) == preview_step(old(self)@, actor@, o@),
    {
        let d = self.dependencies(&o)?;
        let ghost m = self@;
        let view = Preview { id: self.sequence, seller_balance_after: d.seller_balance + o.fee, offer: o };
        let stored = StoredPreview {
            actor: actor.to_owned(),
            day: self.window.day(),
            view: copy_preview(&view),
            dependencies: d,
        };
        match self.preview_pos(self.sequence) {
            Some(i) => {
                self.previews.set(i, stored);
            },
            None => {
                self.previews.push(stored);
            },
        }
        proof {
            let sm = StoredModel { actor: actor@, day: m.window.day, view: view@, dependencies: d };
            assert(self@.previews =~= upsert(m.previews, preview_key(), m.sequence, sm));
            assert(self@ == SessionModel { previews: upsert(m.previews, preview_key(), m.sequence, sm), ..m });
        }
        Ok(view)
    }

    fn review(&mut self, actor: &str, id: u64) -> (r: Result<Outcome, Error>)
        requires
            session_valid(old(self)@),
            is_manager(old(self)@, actor@),
        ensures
            (final(self)@, outcome_result(r)) == executed(old(self)@, actor@, CommandModel::Review(id)),
    {
        let o = self.seller_offer(actor, id)?;
        proof {
            let k = find(self@.offers, offer_key(), id)->0;
            assert(self@.offers[k] == o@);
        }
        let v = self.preview(actor, o)?;
        Ok(Outcome::Preview(v))
    }

    fn reject(&mut self, actor: &str, id: u64) -> (r: Result<Outcome, Error>)
        requires
            session_valid(old(self)@),
            is_manager(old(self)@, actor@),
        ensures
            (final(self)@, outcome_result(r)) == executed(old(self)@, actor@, CommandModel::Reject(id)),
            session_valid(final(self)@),
    {
        let _ = self.seller_offer(actor, id)?;
        let ghost m = self@;
        match self.offer_pos(id) {
            Some(i) => {
                let mut o = copy_offer(&self.offers[i]);
                o.status = OfferStatus::Rejected;
                self.offers.set(i, o);
                proof {
                    assert(self@.offers =~= m.offers.update(
                        i as int,
                        OfferModel { status: OfferStatus::Rejected, ..m.offers[i as int] },
                    ));
                    assert forall|k: int| 0 <= k < self@.offers.len() implies has_key(
                        self@.clubs,
                        club_key(),
                        (#[trigger] self@.offers[k]).buyer,
                    ) && has_key(self@.clubs, club_key(), self@.offers[k].seller) by {
                        assert(self@.offers[k].buyer == m.offers[k].buyer);
                        assert(self@.offers[k].seller == m.offers[k].seller);
                    }
                }
            },
            None => {
                proof {
                    assert(false);
                }
            },
        }
        Ok(Outcome::Rejected)
    }
}


fn copy_club_record(r: &ClubRecord) -> (c: ClubRecord)
    ensures
        c.club@ == r.club@,
        c.revision == r.revision,
{
    ClubRecord { club: copy_club(&r.club), revision: r.revision }
}

impl Management {
    /// The offer behind a successful seller lookup names existing clubs.
    proof fn lemma_offer_clubs(&self, actor: Seq<char>, id: u64)
        requires
            session_valid(self@),
            seller_offer(self@, actor, id) is Ok,
        ensures
            has_key(self@.clubs, club_key(), seller_offer(self@, actor, id)->Ok_0.buyer),
            has_key(self@.clubs, club_key(), seller_offer(self@, actor, id)->Ok_0.seller),
    {
        let k = find(self@.offers, offer_key(), id)->0;
        assert(seller_offer(self@, actor, id)->Ok_0 == self@.offers[k]);
    }

    /// Move the fee, renumber both clubs and the player, hand the player to the
    /// buyer, settle the player's offers and use up the preview.
    fn transfer(&mut self, o: &Offer, d: Dependencies, preview_id: u64)
        requires
            session_valid(old(self)@),
            dependencies(old(self)@, o@) == Ok::<Dependencies, Error>(d),
            has_key(old(self)@.clubs, club_key(), o@.buyer),
            has_key(old(self)@.clubs, club_key(), o@.seller),
            d.buyer_revision < u64::MAX,
            d.seller_revision < u64::MAX,
            d.player_revision < u64::MAX,
        ensures
            final(self)@ == transfer(old(self)@, o@, d, preview_id),
            session_valid(final(self)@),
    {
        let ghost m = self@;
        proof {
            let b = choose|c: int| 0 <= c < m.clubs.len() && (club_key())(#[trigger] m.clubs[c]) == o@.buyer;
            lemma_find_unique(m.clubs, club_key(), o@.buyer, b);
            let s = choose|c: int| 0 <= c < m.clubs.len() && (club_key())(#[trigger] m.clubs[c]) == o@.seller;
            lemma_find_unique(m.clubs, club_key(), o@.seller, s);
        }
        let bi = match self.club_pos(o.buyer.as_str()) {
            Some(i) => i,
            None => {
                proof {
                    assert(false);
                }
                return;
            },
        };
        let si = match self.club_pos(o.seller.as_str()) {
            Some(i) => i,
            None => {
                proof {
                    assert(false);
                }
                return;
            },
        };
        let pi = match self.player_pos(o.player_id.as_str()) {
            Some(i) => i,
            None => {
                proof {
                    assert(false);
                }
                return;
            },
        };
        let ghost c1 = with_balance(m.clubs, bi as int, m.clubs[bi as int].0.balance - o.fee);
        let mut b = copy_club_record(&self.clubs[bi]);
        b.club.balance = b.club.balance - o.fee;
        self.clubs.set(bi, b);
        assert(self@.clubs =~= c1);
        let ghost c2 = with_balance(c1, si as int, c1[si as int].0.balance + o.fee);
        let mut s = copy_club_record(&self.clubs[si]);
        s.club.balance = s.club.balance + o.fee;
        self.clubs.set(si, s);
        assert(self@.clubs =~= c2);
        let ghost c3 = with_revision(c2, bi as int, d.buyer_revision + 1);
        let mut b = copy_club_record(&self.clubs[bi]);
        b.revision = d.buyer_revision + 1;
        self.clubs.set(bi, b);
        assert(self@.clubs =~= c3);
        let ghost c4 = with_revision(c3, si as int, d.seller_revision + 1);
        let mut s = copy_club_record(&self.clubs[si]);
        s.revision = d.seller_revision + 1;
        self.clubs.set(si, s);
        assert(self@.clubs =~= c4);
        let p = PlayerRecord {
            player: Player {
                id: self.players[pi].player.id.clone(),
                name: self.players[pi].player.name.clone(),
                club_id: o.buyer.clone(),
            },
            revision: d.player_revision + 1,
        };
        self.players.set(pi, p);
        assert(self@.players =~= m.players.update(
            pi as int,
            (PlayerModel { club_id: o@.buyer, ..m.players[pi as int].0 }, (d.player_revision + 1) as u64),
        ));
        let ghost mid = self@;
        let mut k: usize = 0;
        while k < self.offers.len()
            invariant
                k <= self.offers@.len(),
                self@ == (SessionModel { offers: self@.offers, ..mid }),
                self@.offers.len() == m.offers.len(),
                forall|j: int| 0 <= j < k ==> #[trigger] self@.offers[j] == settle_offer(m.offers[j], o@),
                forall|j: int| k <= j < m.offers.len() ==> #[trigger] self@.offers[j] == m.offers[j],
            decreases self.offers@.len() - k,
        {
            let ghost old_offers = self@.offers;
            assert(old_offers[k as int] == self.offers@[k as int]@);
            assert(old_offers[k as int] == m.offers[k as int]);
            if str_eq(self.offers[k].player_id.as_str(), o.player_id.as_str()) && self.offers[k].status
                == OfferStatus::Pending {
                let mut x = copy_offer(&self.offers[k]);
                x.status = if x.id == o.id {
                    OfferStatus::Accepted
                } else {
                    OfferStatus::Withdrawn
                };
                let ghost xv = x@;
                self.offers.set(k, x);
                assert(self@.offers =~= old_offers.update(k as int, xv));
                assert(self@.offers[k as int] == settle_offer(m.offers[k as int], o@));
            } else {
                assert(self@.offers[k as int] == settle_offer(m.offers[k as int], o@));
            }
            proof {
                assert forall|j: int| 0 <= j < k + 1 implies #[trigger] self@.offers[j] == settle_offer(
                    m.offers[j],
                    o@,
                ) by {
                    if j < k {
                        assert(self@.offers[j] == old_offers[j]);
                    }
                }
            }
            k = k + 1;
        }
        assert(self@.offers =~= m.offers.map_values(|x: OfferModel| settle_offer(x, o@)));
        match self.preview_pos(preview_id) {
            Some(j) => {
                self.previews.remove(j);
                assert(self@.previews =~= m.previews.remove(j as int));
            },
            None => {},
        }
        proof {
            let t = transfer(m, o@, d, preview_id);
            assert(self@.previews == t.previews);
            assert(self@ == t);
            lemma_same_keys(m.clubs, t.clubs, club_key());
            lemma_same_keys(m.players, t.players, player_key());
            assert forall|i: int| 0 <= i < t.players.len() implies has_key(
                t.clubs,
                club_key(),
                (#[trigger] t.players[i]).0.club_id,
            ) by {
                if i != pi {
                    assert(t.players[i] == m.players[i]);
                }
            }
            assert forall|i: int| 0 <= i < t.offers.len() implies has_key(
                t.clubs,
                club_key(),
                (#[trigger] t.offers[i]).buyer,
            ) && has_key(t.clubs, club_key(), t.offers[i].seller) by {
                assert(t.offers[i].buyer == m.offers[i].buyer);
                assert(t.offers[i].seller == m.offers[i].seller);
            }
        }
    }

    fn confirm(&mut self, actor: &str, preview_id: u64) -> (r: Result<Outcome, Error>)
        requires
            session_valid(old(self)@),
            is_manager(old(self)@, actor@),
        ensures
            (final(self)@, outcome_result(r)) == confirm_step(old(self)@, actor@, preview_id),
            session_valid(final(self)@),
    {
        let ghost m = self@;
        let k = match self.preview_pos(preview_id) {
            Some(k) => k,
            None => return Err(Error::Unavailable),
        };
        if !str_eq(self.previews[k].actor.as_str(), actor) || self.previews[k].day != self.window.day() {
            return Err(Error::Unavailable);
        }
        let offer_id = self.previews[k].view.offer.id;
        let offer = self.seller_offer(actor, offer_id)?;
        proof {
            self.lemma_offer_clubs(actor@, offer_id);
        }
        let d = self.dependencies(&offer)?;
        let stored_dependencies = self.previews[k].dependencies;
        let same = same_offer(&offer, &self.previews[k].view.offer);
        if !(d == stored_dependencies) || !same {
            let updated = self.preview(actor, offer)?;
            let ghost m1 = self@;
            proof {
                lemma_valid_frame(m, m1);
            }
            match self.preview_pos(preview_id) {
                Some(j) => {
                    self.previews.remove(j);
                    assert(self@.previews =~= m1.previews.remove(j as int));
                },
                None => {},
            }
            proof {
                assert(self@ == SessionModel { previews: remove_key(m1.previews, preview_key(), preview_id), ..m1 });
                lemma_valid_frame(m1, self@);
            }
            return Ok(Outcome::RefreshRequired(updated));
        }
        if d.buyer_revision == u64::MAX || d.seller_revision == u64::MAX || d.player_revision == u64::MAX {
            return Err(Error::Overflow);
        }
        self.transfer(&offer, d, preview_id);
        Ok(Outcome::Transferred { offer_id: offer.id })
    }
}


impl Management {
    /// Carry out `command` for `actor`.
    fn execute(&mut self, actor: &str, command: &Command) -> (r: Result<Outcome, Error>)
        requires
            session_valid(old(self)@),
            offers_fresh(old(self)@),
            is_manager(old(self)@, actor@),
        ensures
            (final(self)@, outcome_result(r)) == executed(old(self)@, actor@, command@),
            session_valid(final(self)@),
    {
        let ghost m = self@;
        match command {
            Command::SetRecovery { mode } => {
                let r = self.set_recovery(actor, *mode);
                proof {
                    lemma_valid_frame(m, self@);
                }
                r
            },
            Command::SetLineup { player_ids } => {
                let r = self.set_lineup(actor, player_ids);
                proof {
                    lemma_valid_frame(m, self@);
                }
                r
            },
            Command::Ready => {
                self.window.mark_ready(actor);
                proof {
                    lemma_valid_frame(m, self@);
                }
                Ok(Outcome::Ready)
            },
            Command::Offer { player_id, fee } => self.make_offer(actor, player_id, *fee),
            Command::Review { offer_id } => {
                let r = self.review(actor, *offer_id);
                proof {
                    lemma_valid_frame(m, self@);
                }
                r
            },
            Command::Reject { offer_id } => self.reject(actor, *offer_id),
            Command::Confirm { preview_id } => self.confirm(actor, *preview_id),
        }
    }

    /// Answer `request` from `actor` at `now_ms`. See [`dispatched`].
    pub fn dispatch(&mut self, actor: &str, request: Request, now_ms: u64) -> (r: Result<Receipt, Error>)
        requires
            session_valid(old(self)@),
        ensures
            (final(self)@, receipt_result(r)) == dispatched(old(self)@, actor@, request@, now_ms),
            session_valid(final(self)@),
    {
        let ghost m = self@;
        if self.manager_pos(actor).is_none() {
            return Err(Error::Unauthorized);
        }
        if request.id.as_str().is_empty() {
            return Err(Error::InvalidRequest);
        }
        match self.receipt_pos(actor, request.id.as_str()) {
            Some(i) => {
                if same_request(&self.receipts[i].request, &request) {
                    return Ok(copy_receipt(&self.receipts[i].receipt));
                } else {
                    return Err(Error::RequestIdReused);
                }
            },
            None => {},
        }
        if self.sequence == u64::MAX {
            return Err(Error::Overflow);
        }
        self.sequence = self.sequence + 1;
        let ghost m1 = self@;
        proof {
            lemma_valid_frame(m, m1);
        }
        let result = if request.day != self.window.day() {
            Err(Error::WrongDay)
        } else if self.closed(now_ms) {
            Err(Error::DayClosed)
        } else {
            self.execute(actor, &request.command)
        };
        let receipt = Receipt { sequence: self.sequence, result };
        let stored = copy_receipt(&receipt);
        let ghost m2 = self@;
        self.receipts.push(ReceiptRecord { actor: actor.to_owned(), request, receipt: stored });
        proof {
            assert(self@.receipts =~= m2.receipts.push(
                ReceiptEntry { actor: actor@, request: request@, receipt: receipt@ },
            ));
            lemma_valid_frame(m2, self@);
        }
        let ghost m3 = self@;
        self.closed(now_ms);
        proof {
            lemma_valid_frame(m3, self@);
        }
        Ok(receipt)
    }
}


/// An offer after its club's manager is eliminated: pending offers in which
/// `club` buys or sells are withdrawn.
pub open spec fn withdraw_for(o: OfferModel, club: Seq<char>) -> OfferModel {
    if o.status == OfferStatus::Pending && (o.buyer == club || o.seller == club) {
        OfferModel { status: OfferStatus::Withdrawn, ..o }
    } else {
        o
    }
}

/// Eliminating `actor`: the manager leaves, their club's pending offers are
/// withdrawn, their previews are dropped, and the day closes if everyone left
/// is ready.
pub open spec fn eliminated(m: SessionModel, actor: Seq<char>) -> Result<SessionModel, Error> {
    match find(m.managers, manager_key(), actor) {
        None => Err(Error::Unauthorized),
        Some(i) => {
            let club = m.managers[i].club_id;
            let m1 = SessionModel {
                managers: m.managers.remove(i),
                offers: m.offers.map_values(|o: OfferModel| withdraw_for(o, club)),
                previews: m.previews.filter(|p: StoredModel| p.actor != actor),
                ..m
            };
            Ok(SessionModel { closed: closes(m1, 0), ..m1 })
        },
    }
}

/// Advancing the calendar: only from the expected day, to a later deadline,
/// and once the day has closed. The next day opens with nobody ready and no
/// previews.
pub open spec fn advanced(m: SessionModel, expected_day: u32, now_ms: u64, next_deadline_ms: u64) -> Result<SessionModel, Error> {
    if expected_day != m.window.day {
        Err(Error::WrongDay)
    } else if next_deadline_ms <= now_ms {
        Err(Error::InvalidRequest)
    } else if expected_day == u32::MAX {
        Err(Error::Overflow)
    } else if !closes(m, now_ms) {
        Err(Error::InvalidRequest)
    } else {
        Ok(
            SessionModel {
                window: WindowModel { day: (expected_day + 1) as u32, deadline_ms: next_deadline_ms, ready: Seq::empty() },
                closed: false,
                previews: Seq::empty(),
                ..m
            },
        )
    }
}

impl Management {
    /// Host-only calendar step; the expected day prevents a double advance.
    /// A refusal changes nothing.
    pub fn next_day(&mut self, expected_day: u32, now_ms: u64, next_deadline_ms: u64) -> (r: Result<(), Error>)
        requires
            session_valid(old(self)@),
        ensures
            match advanced(old(self)@, expected_day, now_ms, next_deadline_ms) {
                Ok(n) => r is Ok && final(self)@ == n,
                Err(e) => r == Err::<(), Error>(e) && final(self)@ == old(self)@,
            },
            session_valid(final(self)@),
    {
        let ghost m = self@;
        if expected_day != self.window.day() {
            return Err(Error::WrongDay);
        }
        if next_deadline_ms <= now_ms {
            return Err(Error::InvalidRequest);
        }
        if expected_day == u32::MAX {
            return Err(Error::Overflow);
        }
        if !self.closed(now_ms) {
            return Err(Error::InvalidRequest);
        }
        self.window = DayWindow::new(expected_day + 1, next_deadline_ms);
        self.closed = false;
        self.previews = Vec::new();
        proof {
            assert(preview_entries(self.previews@) =~= Seq::<StoredModel>::empty());
            lemma_valid_frame(m, self@);
        }
        Ok(())
    }

    /// Host-only elimination, not a manager tool: see [`eliminated`].
    pub fn eliminate(&mut self, actor: &str) -> (r: Result<(), Error>)
        requires
            session_valid(old(self)@),
        ensures
            match eliminated(old(self)@, actor@) {
                Ok(n) => r is Ok && final(self)@ == n,
                Err(e) => r == Err::<(), Error>(e) && final(self)@ == old(self)@,
            },
            session_valid(final(self)@),
    {
        let ghost m = self@;
        let mi = match self.manager_pos(actor) {
            Some(i) => i,
            None => return Err(Error::Unauthorized),
        };
        let removed = self.managers.remove(mi);
        let club = removed.club_id;
        assert(self@.managers =~= m.managers.remove(mi as int));
        let ghost mid = self@;
        let mut k: usize = 0;
        while k < self.offers.len()
            invariant
                k <= self.offers@.len(),
                self@ == (SessionModel { offers: self@.offers, ..mid }),
                self@.offers.len() == m.offers.len(),
                mid.offers == m.offers,
                forall|j: int| 0 <= j < k ==> #[trigger] self@.offers[j] == withdraw_for(m.offers[j], club@),
                forall|j: int| k <= j < m.offers.len() ==> #[trigger] self@.offers[j] == m.offers[j],
            decreases self.offers@.len() - k,
        {
            let ghost old_offers = self@.offers;
            assert(old_offers[k as int] == self.offers@[k as int]@);
            let o = &self.offers[k];
            if o.status == OfferStatus::Pending && (str_eq(o.buyer.as_str(), club.as_str()) || str_eq(
                o.seller.as_str(),
                club.as_str(),
            )) {
                let mut x = copy_offer(o);
                x.status = OfferStatus::Withdrawn;
                let ghost xv = x@;
                self.offers.set(k, x);
                assert(self@.offers =~= old_offers.update(k as int, xv));
            }
            assert(self@.offers[k as int] == withdraw_for(m.offers[k as int], club@));
            k = k + 1;
        }
        assert(self@.offers =~= m.offers.map_values(|o: OfferModel| withdraw_for(o, club@)));
        let ghost pred = |p: StoredModel| p.actor != actor@;
        let mut kept: Vec<StoredPreview> = Vec::new();
        let mut k: usize = 0;
        while k < self.previews.len()
            invariant
                k <= self.previews@.len(),
                pred == (|p: StoredModel| p.actor != actor@),
                preview_entries(kept@) == preview_entries(self.previews@).take(k as int).filter(pred),
            decreases self.previews@.len() - k,
        {
            proof {
                reveal(Seq::filter);
                let pv = preview_entries(self.previews@);
                assert(pv.take(k as int + 1).drop_last() =~= pv.take(k as int));
                assert(pv.take(k as int + 1).last() == pv[k as int]);
            }
            let p = &self.previews[k];
            if !str_eq(p.actor.as_str(), actor) {
                let copy = StoredPreview {
                    actor: p.actor.clone(),
                    day: p.day,
                    view: copy_preview(&p.view),
                    dependencies: p.dependencies,
                };
                kept.push(copy);
                assert(preview_entries(kept@) =~= preview_entries(self.previews@).take(k as int).filter(
                    pred,
                ).push(stored_model(self.previews@[k as int])));
            }
            k = k + 1;
        }
        assert(preview_entries(self.previews@).take(self.previews@.len() as int) =~= preview_entries(
            self.previews@,
        ));
        self.previews = kept;
        proof {
            let mi2 = find(m.managers, manager_key(), actor@)->0;
            assert(mi2 == mi);
            assert(self@.previews == m.previews.filter(pred));
            let n = self@;
            assert forall|a: int, b: int| 0 <= a < b < n.managers.len() implies (manager_key())(
                #[trigger] n.managers[a],
            ) != (manager_key())(#[trigger] n.managers[b]) by {
                let a0 = if a < mi { a } else { a + 1 };
                let b0 = if b < mi { b } else { b + 1 };
                assert(n.managers[a] == m.managers[a0]);
                assert(n.managers[b] == m.managers[b0]);
            }
            assert forall|a: int| 0 <= a < n.managers.len() implies has_key(
                n.clubs,
                club_key(),
                (#[trigger] n.managers[a]).club_id,
            ) by {
                let a0 = if a < mi { a } else { a + 1 };
                assert(n.managers[a] == m.managers[a0]);
            }
            assert forall|a: int| 0 <= a < n.offers.len() implies has_key(
                n.clubs,
                club_key(),
                (#[trigger] n.offers[a]).buyer,
            ) && has_key(n.clubs, club_key(), n.offers[a].seller) by {
                assert(n.offers[a].buyer == m.offers[a].buyer);
                assert(n.offers[a].seller == m.offers[a].seller);
            }
        }
        let ghost m4 = self@;
        self.closed(0);
        proof {
            lemma_valid_frame(m4, self@);
        }
        Ok(())
    }

    /// Host seam: recovery settings become available once the host has
    /// validated the session's recovery setup.
    pub fn enable_recovery(&mut self)
        ensures
            final(self)@ == (SessionModel { recovery_enabled: true, ..old(self)@ }),
    {
        self.recovery_enabled = true;
    }
}


// ----- laws -----

/// Commands never touch the managers, the receipts or the sequence, and a
/// refused command changes nothing at all.
proof fn lemma_executed_frame(m: SessionModel, actor: Seq<char>, c: CommandModel)
    ensures
        executed(m, actor, c).0.managers == m.managers,
        executed(m, actor, c).0.receipts == m.receipts,
        executed(m, actor, c).0.sequence == m.sequence,
        executed(m, actor, c).0.closed == m.closed,
        executed(m, actor, c).1 is Err ==> executed(m, actor, c).0 == m,
{
}

/// A request that was answered gets the same receipt when sent again, at any
/// time, and the replay changes nothing.
pub proof fn lemma_replay_returns_same_receipt(
    m: SessionModel,
    actor: Seq<char>,
    request: RequestModel,
    now_ms: u64,
    later_ms: u64,
)
    requires
        dispatched(m, actor, request, now_ms).1 is Ok,
    ensures
        dispatched(dispatched(m, actor, request, now_ms).0, actor, request, later_ms) == dispatched(
            m,
            actor,
            request,
            now_ms,
        ),
{
    let (m1, r) = dispatched(m, actor, request, now_ms);
    if find(m.receipts, receipt_key(), (actor, request.id)) is None {
        let n1 = SessionModel { sequence: (m.sequence + 1) as u64, ..m };
        lemma_executed_frame(n1, actor, request.command);
        let k = m.receipts.len() as int;
        assert(m1.managers == m.managers);
        assert(m1.receipts.len() == k + 1);
        assert(m1.receipts.subrange(0, k) =~= m.receipts);
        assert forall|j: int| 0 <= j < k implies (receipt_key())(#[trigger] m1.receipts[j]) != (
            actor,
            request.id,
        ) by {
            assert(m1.receipts[j] == m.receipts[j]);
            if (receipt_key())(m.receipts[j]) == (actor, request.id) {
                lemma_find_some(m.receipts, receipt_key(), (actor, request.id));
                assert(has_key(m.receipts, receipt_key(), (actor, request.id)));
            }
        }
        lemma_find_at(m1.receipts, receipt_key(), (actor, request.id), k);
    }
}

/// Once a request ID has been answered for a manager, a different request
/// under the same ID is refused and changes nothing.
pub proof fn lemma_request_id_not_reused(
    m: SessionModel,
    actor: Seq<char>,
    first: RequestModel,
    second: RequestModel,
    now_ms: u64,
    later_ms: u64,
)
    requires
        dispatched(m, actor, first, now_ms).1 is Ok,
        second.id == first.id,
        second != first,
    ensures
        dispatched(dispatched(m, actor, first, now_ms).0, actor, second, later_ms) == (
            dispatched(m, actor, first, now_ms).0,
            Err::<ReceiptModel, Error>(Error::RequestIdReused),
        ),
{
    let (m1, r) = dispatched(m, actor, first, now_ms);
    if find(m.receipts, receipt_key(), (actor, first.id)) is None {
        let n1 = SessionModel { sequence: (m.sequence + 1) as u64, ..m };
        lemma_executed_frame(n1, actor, first.command);
        let k = m.receipts.len() as int;
        assert(m1.managers == m.managers);
        assert forall|j: int| 0 <= j < k implies (receipt_key())(#[trigger] m1.receipts[j]) != (
            actor,
            first.id,
        ) by {
            assert(m1.receipts[j] == m.receipts[j]);
            if (receipt_key())(m.receipts[j]) == (actor, first.id) {
                lemma_find_some(m.receipts, receipt_key(), (actor, first.id));
                assert(has_key(m.receipts, receipt_key(), (actor, first.id)));
            }
        }
        lemma_find_at(m1.receipts, receipt_key(), (actor, first.id), k);
    }
}

/// A request refused outright changes nothing; a request answered with an
/// error changes only the bookkeeping (sequence, receipts, closed flag): clubs,
/// players, managers, offers, previews, lineups, recovery modes and the window
/// stay as they were.
pub proof fn lemma_refusal_changes_nothing(m: SessionModel, actor: Seq<char>, request: RequestModel, now_ms: u64)
    ensures
        dispatched(m, actor, request, now_ms).1 is Err ==> dispatched(m, actor, request, now_ms).0 == m,
        dispatched(m, actor, request, now_ms).1 matches Ok(r) && r.result is Err ==> {
            let n = dispatched(m, actor, request, now_ms).0;
            &&& n.clubs == m.clubs
            &&& n.players == m.players
            &&& n.managers == m.managers
            &&& n.offers == m.offers
            &&& n.previews == m.previews
            &&& n.lineups == m.lineups
            &&& n.recovery_modes == m.recovery_modes
            &&& n.window == m.window
        },
{
    let n1 = SessionModel { sequence: (m.sequence + 1) as u64, ..m };
    lemma_executed_frame(n1, actor, request.command);
}

/// The sum of the clubs' balances.
pub open spec fn total_balance(clubs: Seq<(ClubModel, u64)>) -> int
    decreases clubs.len(),
{
    if clubs.len() == 0 {
        0
    } else {
        total_balance(clubs.drop_last()) + clubs.last().0.balance
    }
}

proof fn lemma_total_update(clubs: Seq<(ClubModel, u64)>, i: int, e: (ClubModel, u64))
    requires
        0 <= i < clubs.len(),
    ensures
        total_balance(clubs.update(i, e)) == total_balance(clubs) - clubs[i].0.balance + e.0.balance,
    decreases clubs.len(),
{
    let u = clubs.update(i, e);
    if i == clubs.len() - 1 {
        assert(u.drop_last() =~= clubs.drop_last());
    } else {
        lemma_total_update(clubs.drop_last(), i, e);
        assert(u.drop_last() =~= clubs.drop_last().update(i, e));
    }
}

/// Money is neither created nor destroyed: after any request the clubs'
/// balances add up to what they did before.
pub proof fn lemma_balances_conserved(m: SessionModel, actor: Seq<char>, request: RequestModel, now_ms: u64)
    requires
        session_valid(m),
    ensures
        total_balance(dispatched(m, actor, request, now_ms).0.clubs) == total_balance(m.clubs),
{
    let n1 = SessionModel { sequence: (m.sequence + 1) as u64, ..m };
    if let CommandModel::Confirm(preview_id) = request.command {
        let (n, r) = confirm_step(n1, actor, preview_id);
        if r matches Ok(OutcomeModel::Transferred(_)) {
            let k = find(n1.previews, preview_key(), preview_id)->0;
            let stored = n1.previews[k];
            let o = seller_offer(n1, actor, stored.view.offer.id)->Ok_0;
            let d = dependencies(n1, o)->Ok_0;
            let bi = find(n1.clubs, club_key(), o.buyer)->0;
            let si = find(n1.clubs, club_key(), o.seller)->0;
            let pi = find(n1.players, player_key(), o.player_id)->0;
            let oi = find(n1.offers, offer_key(), stored.view.offer.id)->0;
            assert(o == n1.offers[oi]);
            lemma_find_some(n1.clubs, club_key(), o.buyer);
            lemma_find_some(n1.clubs, club_key(), o.seller);
            assert(first_with(n1.clubs, club_key(), o.buyer, bi));
            assert(first_with(n1.clubs, club_key(), o.seller, si));
            let c1 = with_balance(n1.clubs, bi, n1.clubs[bi].0.balance - o.fee);
            lemma_total_update(n1.clubs, bi, c1[bi]);
            let c2 = with_balance(c1, si, c1[si].0.balance + o.fee);
            lemma_total_update(c1, si, c2[si]);
            let c3 = with_revision(c2, bi, d.buyer_revision + 1);
            lemma_total_update(c2, bi, c3[bi]);
            let c4 = with_revision(c3, si, d.seller_revision + 1);
            lemma_total_update(c3, si, c4[si]);
            assert(n.clubs == c4);
        }
    }
}



// ----- checkpoint validation -----

pub open spec fn club_known(m: SessionModel, id: Seq<char>) -> bool {
    find(m.clubs, club_key(), id) is Some
}

pub open spec fn player_known(m: SessionModel, id: Seq<char>) -> bool {
    find(m.players, player_key(), id) is Some
}

pub open spec fn manager_known(m: SessionModel, id: Seq<char>) -> bool {
    find(m.managers, manager_key(), id) is Some
}

pub open spec fn offer_known(m: SessionModel, id: u64) -> bool {
    find(m.offers, offer_key(), id) is Some
}

/// IDs are nonblank; every player has no club or a known one; every manager
/// runs a known club, and no two managers run the same club.
pub open spec fn identities_ok(m: SessionModel) -> bool {
    &&& forall|i: int| 0 <= i < m.clubs.len() ==> !is_blank_spec((#[trigger] m.clubs[i]).0.id)
    &&& forall|i: int|
        0 <= i < m.players.len() ==> !is_blank_spec((#[trigger] m.players[i]).0.id) && (m.players[i].0.club_id.len()
            == 0 || club_known(m, m.players[i].0.club_id))
    &&& forall|i: int|
        0 <= i < m.managers.len() ==> !is_blank_spec((#[trigger] m.managers[i]).id) && club_known(
            m,
            m.managers[i].club_id,
        )
    &&& forall|i: int, j: int|
        0 <= i < j < m.managers.len() ==> (#[trigger] m.managers[i]).club_id != (#[trigger] m.managers[j]).club_id
}

/// Saved lineups belong to known clubs and hold at most eleven distinct
/// known players.
pub open spec fn lineups_ok(m: SessionModel) -> bool {
    forall|i: int|
        0 <= i < m.lineups.len() ==> {
            let l = #[trigger] m.lineups[i];
            &&& club_known(m, l.0)
            &&& l.1.len() <= 11
            &&& forall|a: int, b: int| 0 <= a < b < l.1.len() ==> l.1[a] != l.1[b]
            &&& forall|a: int| 0 <= a < l.1.len() ==> player_known(m, l.1[a])
        }
}

/// Recovery choices belong to known clubs.
pub open spec fn recovery_ok(m: SessionModel) -> bool {
    forall|i: int| 0 <= i < m.recovery_modes.len() ==> club_known(m, (#[trigger] m.recovery_modes[i]).0)
}

/// Receipts name a nonblank manager and a nonempty request ID, and carry
/// distinct request numbers from 1 up to the current one.
pub open spec fn receipts_ok(m: SessionModel) -> bool {
    &&& forall|i: int|
        0 <= i < m.receipts.len() ==> !is_blank_spec((#[trigger] m.receipts[i]).actor) && m.receipts[i].request.id.len()
            > 0 && 1 <= m.receipts[i].receipt.sequence <= m.sequence
    &&& forall|i: int, j: int|
        0 <= i < j < m.receipts.len() ==> (#[trigger] m.receipts[i]).receipt.sequence != (
        #[trigger] m.receipts[j]).receipt.sequence
}

/// Offers are numbered from 1 up to the current request number, name a known
/// player and two different known clubs, and carry a fee from 1 to `i64::MAX`.
pub open spec fn offers_ok(m: SessionModel) -> bool {
    forall|i: int|
        0 <= i < m.offers.len() ==> {
            let o = #[trigger] m.offers[i];
            &&& 1 <= o.id <= m.sequence
            &&& player_known(m, o.player_id)
            &&& o.buyer != o.seller
            &&& club_known(m, o.buyer)
            &&& club_known(m, o.seller)
            &&& 1 <= o.fee <= i64::MAX
        }
}

/// Previews are numbered from 1 up to the current request number, belong to
/// a known manager, date from the current day and review a known offer.
pub open spec fn previews_ok(m: SessionModel) -> bool {
    forall|i: int|
        0 <= i < m.previews.len() ==> {
            let p = #[trigger] m.previews[i];
            &&& 1 <= p.view.id <= m.sequence
            &&& manager_known(m, p.actor)
            &&& p.day == m.window.day
            &&& offer_known(m, p.view.offer.id)
        }
}

/// The first structural problem of a checkpointed session, if any.
pub open spec fn checkpoint_problem(m: SessionModel) -> Option<Seq<char>> {
    if m.clubs.len() == 0 || m.managers.len() == 0 {
        Some("Invalid checkpoint: empty clubs or active managers"@)
    } else if !identities_ok(m) {
        Some("Invalid checkpoint: identity keys or ownership"@)
    } else if !lineups_ok(m) {
        Some("Invalid checkpoint: saved lineup references"@)
    } else if !recovery_ok(m) {
        Some("Invalid checkpoint: club plan or recovery configuration"@)
    } else if !receipts_ok(m) {
        Some("Invalid checkpoint: request receipt identity or sequence"@)
    } else if !offers_ok(m) {
        Some("Invalid checkpoint: transfer offer references"@)
    } else if !previews_ok(m) {
        Some("Invalid checkpoint: transfer preview references"@)
    } else {
        None
    }
}

impl Management {
    fn known_club(&self, id: &str) -> (r: bool)
        ensures
            r == club_known(self@, id@),
    {
        self.club_pos(id).is_some()
    }

    fn known_player(&self, id: &str) -> (r: bool)
        ensures
            r == player_known(self@, id@),
    {
        self.player_pos(id).is_some()
    }

    fn identities_check(&self) -> (r: bool)
        ensures
            r == identities_ok(self@),
    {
        let ghost m = self@;
        let mut i: usize = 0;
        while i < self.clubs.len()
            invariant
                m == self@,
                i <= self.clubs@.len(),
                forall|k: int| 0 <= k < i ==> !is_blank_spec((#[trigger] m.clubs[k]).0.id),
            decreases self.clubs@.len() - i,
        {
            if is_blank(self.clubs[i].club.id.as_str()) {
                assert(m.clubs[i as int].0.id == self.clubs@[i as int].club.id@);
                return false;
            }
            i = i + 1;
        }
        let mut i: usize = 0;
        while i < self.players.len()
            invariant
                m == self@,
                i <= self.players@.len(),
                forall|k: int|
                    0 <= k < i ==> !is_blank_spec((#[trigger] m.players[k]).0.id) && (m.players[k].0.club_id.len() == 0
                        || club_known(m, m.players[k].0.club_id)),
            decreases self.players@.len() - i,
        {
            let p = &self.players[i].player;
            assert(m.players[i as int].0 == p@);
            if is_blank(p.id.as_str()) {
                return false;
            }
            if !p.club_id.as_str().is_empty() && !self.known_club(p.club_id.as_str()) {
                return false;
            }
            i = i + 1;
        }
        let mut i: usize = 0;
        while i < self.managers.len()
            invariant
                m == self@,
                i <= self.managers@.len(),
                forall|k: int|
                    0 <= k < i ==> !is_blank_spec((#[trigger] m.managers[k]).id) && club_known(m, m.managers[k].club_id),
                forall|a: int, b: int|
                    0 <= a < b < i ==> (#[trigger] m.managers[a]).club_id != (#[trigger] m.managers[b]).club_id,
            decreases self.managers@.len() - i,
        {
            let g = &self.managers[i];
            assert(m.managers[i as int] == g@);
            if is_blank(g.id.as_str()) || !self.known_club(g.club_id.as_str()) {
                return false;
            }
            let mut j: usize = 0;
            while j < i
                invariant
                    m == self@,
                    i < self.managers@.len(),
                    j <= i,
                    forall|a: int| 0 <= a < j ==> m.managers[a].club_id != m.managers[i as int].club_id,
                decreases i - j,
            {
                if str_eq(self.managers[j].club_id.as_str(), self.managers[i].club_id.as_str()) {
                    assert(m.managers[j as int].club_id == m.managers[i as int].club_id);
                    return false;
                }
                j = j + 1;
            }
            i = i + 1;
        }
        true
    }

    fn lineups_check(&self) -> (r: bool)
        ensures
            r == lineups_ok(self@),
    {
        let ghost m = self@;
        let mut i: usize = 0;
        while i < self.lineups.len()
            invariant
                m == self@,
                i <= self.lineups@.len(),
                forall|k: int|
                    0 <= k < i ==> {
                        let l = #[trigger] m.lineups[k];
                        &&& club_known(m, l.0)
                        &&& l.1.len() <= 11
                        &&& forall|a: int, b: int| 0 <= a < b < l.1.len() ==> l.1[a] != l.1[b]
                        &&& forall|a: int| 0 <= a < l.1.len() ==> player_known(m, l.1[a])
                    },
            decreases self.lineups@.len() - i,
        {
            let l = &self.lineups[i];
            let ghost v = text_views(l.player_ids@);
            assert(m.lineups[i as int] == (l.club_id@, v));
            if !self.known_club(l.club_id.as_str()) || l.player_ids.len() > 11 {
                return false;
            }
            let mut a: usize = 0;
            while a < l.player_ids.len()
                invariant
                    m == self@,
                    i < self.lineups@.len(),
                    m.lineups[i as int].1 == v,
                    v == text_views(l.player_ids@),
                    a <= l.player_ids@.len(),
                    forall|x: int, y: int| 0 <= x < y < a ==> v[x] != v[y],
                    forall|x: int| 0 <= x < a ==> player_known(m, v[x]),
                decreases l.player_ids@.len() - a,
            {
                assert(v[a as int] == l.player_ids@[a as int]@);
                if !self.known_player(l.player_ids[a].as_str()) {
                    proof {
                        let lv = m.lineups[i as int];
                        assert(lv.1 == v);
                        assert(!player_known(m, lv.1[a as int]));
                    }
                    return false;
                }
                let mut b: usize = 0;
                while b < a
                    invariant
                        m == self@,
                        i < self.lineups@.len(),
                        m.lineups[i as int].1 == v,
                        v == text_views(l.player_ids@),
                        a < l.player_ids@.len(),
                        b <= a,
                        forall|x: int| 0 <= x < b ==> v[x] != v[a as int],
                    decreases a - b,
                {
                    if str_eq(l.player_ids[b].as_str(), l.player_ids[a].as_str()) {
                        proof {
                            let lv = m.lineups[i as int];
                            assert(lv.1 == v);
                            assert(lv.1[b as int] == lv.1[a as int]);
                        }
                        return false;
                    }
                    b = b + 1;
                }
                a = a + 1;
            }
            i = i + 1;
        }
        true
    }

    fn recovery_check(&self) -> (r: bool)
        ensures
            r == recovery_ok(self@),
    {
        let ghost m = self@;
        let mut i: usize = 0;
        while i < self.recovery_modes.len()
            invariant
                m == self@,
                i <= self.recovery_modes@.len(),
                forall|k: int| 0 <= k < i ==> club_known(m, (#[trigger] m.recovery_modes[k]).0),
            decreases self.recovery_modes@.len() - i,
        {
            assert(m.recovery_modes[i as int].0 == self.recovery_modes@[i as int].club_id@);
            if !self.known_club(self.recovery_modes[i].club_id.as_str()) {
                return false;
            }
            i = i + 1;
        }
        true
    }

    fn receipts_check(&self) -> (r: bool)
        ensures
            r == receipts_ok(self@),
    {
        let ghost m = self@;
        let mut i: usize = 0;
        while i < self.receipts.len()
            invariant
                m == self@,
                i <= self.receipts@.len(),
                forall|k: int|
                    0 <= k < i ==> !is_blank_spec((#[trigger] m.receipts[k]).actor) && m.receipts[k].request.id.len() > 0
                        && 1 <= m.receipts[k].receipt.sequence <= m.sequence,
                forall|a: int, b: int|
                    0 <= a < b < i ==> (#[trigger] m.receipts[a]).receipt.sequence != (
                    #[trigger] m.receipts[b]).receipt.sequence,
            decreases self.receipts@.len() - i,
        {
            let r = &self.receipts[i];
            assert(m.receipts[i as int].actor == r.actor@);
            assert(m.receipts[i as int].request.id == r.request.id@);
            assert(m.receipts[i as int].receipt.sequence == r.receipt.sequence);
            if is_blank(r.actor.as_str()) || r.request.id.as_str().is_empty() || r.receipt.sequence == 0
                || r.receipt.sequence > self.sequence {
                return false;
            }
            let mut j: usize = 0;
            while j < i
                invariant
                    m == self@,
                    i < self.receipts@.len(),
                    j <= i,
                    forall|a: int| 0 <= a < j ==> m.receipts[a].receipt.sequence != m.receipts[i as int].receipt.sequence,
                decreases i - j,
            {
                assert(m.receipts[j as int].receipt.sequence == self.receipts@[j as int].receipt.sequence);
                if self.receipts[j].receipt.sequence == self.receipts[i].receipt.sequence {
                    return false;
                }
                j = j + 1;
            }
            i = i + 1;
        }
        true
    }

    fn offers_check(&self) -> (r: bool)
        ensures
            r == offers_ok(self@),
    {
        let ghost m = self@;
        let mut i: usize = 0;
        while i < self.offers.len()
            invariant
                m == self@,
                i <= self.offers@.len(),
                forall|k: int|
                    0 <= k < i ==> {
                        let o = #[trigger] m.offers[k];
                        &&& 1 <= o.id <= m.sequence
                        &&& player_known(m, o.player_id)
                        &&& o.buyer != o.seller
                        &&& club_known(m, o.buyer)
                        &&& club_known(m, o.seller)
                        &&& 1 <= o.fee <= i64::MAX
                    },
            decreases self.offers@.len() - i,
        {
            let o = &self.offers[i];
            assert(m.offers[i as int] == o@);
            if o.id == 0 || o.id > self.sequence || !self.known_player(o.player_id.as_str()) || str_eq(
                o.buyer.as_str(),
                o.seller.as_str(),
            ) || !self.known_club(o.buyer.as_str()) || !self.known_club(o.seller.as_str()) || o.fee == 0 || o.fee
                > 9_223_372_036_854_775_807u64 {
                return false;
            }
            i = i + 1;
        }
        true
    }

    fn previews_check(&self) -> (r: bool)
        ensures
            r == previews_ok(self@),
    {
        let ghost m = self@;
        let mut i: usize = 0;
        while i < self.previews.len()
            invariant
                m == self@,
                i <= self.previews@.len(),
                forall|k: int|
                    0 <= k < i ==> {
                        let p = #[trigger] m.previews[k];
                        &&& 1 <= p.view.id <= m.sequence
                        &&& manager_known(m, p.actor)
                        &&& p.day == m.window.day
                        &&& offer_known(m, p.view.offer.id)
                    },
            decreases self.previews@.len() - i,
        {
            let p = &self.previews[i];
            assert(m.previews[i as int].actor == p.actor@);
            assert(m.previews[i as int].day == p.day);
            assert(m.previews[i as int].view == p.view@);
            if p.view.id == 0 || p.view.id > self.sequence || self.manager_pos(p.actor.as_str()).is_none()
                || p.day != self.window.day() || self.offer_pos(p.view.offer.id).is_none() {
                return false;
            }
            i = i + 1;
        }
        true
    }

    /// Check a session against the structural invariants a checkpoint must
    /// keep: the first problem found, if any, is the error.
    pub fn validate_checkpoint(&self) -> (r: Result<(), String>)
        ensures
            match checkpoint_problem(self@) {
                None => r is Ok,
                Some(msg) => r matches Err(e) && e@ == msg,
            },
    {
        if self.clubs.len() == 0 || self.managers.len() == 0 {
            return Err(String::from_str("Invalid checkpoint: empty clubs or active managers"));
        }
        if !self.identities_check() {
            return Err(String::from_str("Invalid checkpoint: identity keys or ownership"));
        }
        if !self.lineups_check() {
            return Err(String::from_str("Invalid checkpoint: saved lineup references"));
        }
        if !self.recovery_check() {
            return Err(String::from_str("Invalid checkpoint: club plan or recovery configuration"));
        }
        if !self.receipts_check() {
            return Err(String::from_str("Invalid checkpoint: request receipt identity or sequence"));
        }
        if !self.offers_check() {
            return Err(String::from_str("Invalid checkpoint: transfer offer references"));
        }
        if !self.previews_check() {
            return Err(String::from_str("Invalid checkpoint: transfer preview references"));
        }
        Ok(())
    }
}

} // verus!
