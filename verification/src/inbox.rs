//! Recipient-owned inbox: delivery, reading, deletion, retention cleanup, and
//! once-only resolution of message actions.
pub mod conversations;

use vstd::prelude::*;
use crate::dates::{Date, parsed_ymd};
use crate::text::{is_blank, is_blank_spec, lemma_text_order_total, sort_texts, text_order, text_views};

verus! {

/// One choice offered by a message action.
#[derive(Debug, Clone, PartialEq, Eq)]
pub struct ActionOption {
    pub id: String,
    pub label: String,
    pub description: String,
}

#[derive(Debug, Clone, PartialEq, Eq)]
pub enum ActionType {
    ChooseOption { options: Vec<ActionOption> },
    Acknowledge,
    Dismiss,
    NavigateTo { route: String },
}

#[derive(Debug, Clone, PartialEq, Eq)]
pub struct MessageAction {
    pub id: String,
    pub label: String,
    pub resolved: bool,
    pub action_type: ActionType,
}

/// An inbox message. `player_id` is the player a conversation is about.
#[derive(Debug, Clone, PartialEq, Eq)]
pub struct InboxMessage {
    pub id: String,
    pub subject: String,
    pub body: String,
    pub sender: String,
    pub date: String,
    pub read: bool,
    pub actions: Vec<MessageAction>,
    pub player_id: Option<String>,
}

#[derive(Debug, Clone, PartialEq, Eq)]
pub enum InboxError {
    Unavailable,
    InvalidMessage,
    InvalidOption,
    AlreadyResolved,
    Expired,
    UnsupportedAction,
    Effect(String),
}

/// What a domain effect reports back: a message key and its parameters, in key order.
#[derive(Debug, Clone, PartialEq, Eq)]
pub struct EffectReceipt {
    pub i18n_key: String,
    pub i18n_params: Vec<(String, String)>,
}

/// An option as text.
pub struct OptionView {
    pub id: Seq<char>,
    pub label: Seq<char>,
    pub description: Seq<char>,
}

impl View for ActionOption {
    type V = OptionView;

    open spec fn view(&self) -> OptionView {
        OptionView { id: self.id@, label: self.label@, description: self.description@ }
    }
}

pub enum ActionTypeView {
    ChooseOption(Seq<OptionView>),
    Acknowledge,
    Dismiss,
    NavigateTo(Seq<char>),
}

impl View for ActionType {
    type V = ActionTypeView;

    open spec fn view(&self) -> ActionTypeView {
        match self {
            ActionType::ChooseOption { options } => ActionTypeView::ChooseOption(
                options@.map_values(|o: ActionOption| o@),
            ),
            ActionType::Acknowledge => ActionTypeView::Acknowledge,
            ActionType::Dismiss => ActionTypeView::Dismiss,
            ActionType::NavigateTo { route } => ActionTypeView::NavigateTo(route@),
        }
    }
}

pub struct ActionView {
    pub id: Seq<char>,
    pub label: Seq<char>,
    pub resolved: bool,
    pub action_type: ActionTypeView,
}

impl View for MessageAction {
    type V = ActionView;

    open spec fn view(&self) -> ActionView {
        ActionView {
            id: self.id@,
            label: self.label@,
            resolved: self.resolved,
            action_type: self.action_type@,
        }
    }
}

pub struct MessageView {
    pub id: Seq<char>,
    pub subject: Seq<char>,
    pub body: Seq<char>,
    pub sender: Seq<char>,
    pub date: Seq<char>,
    pub read: bool,
    pub actions: Seq<ActionView>,
    pub player_id: Option<Seq<char>>,
}

pub open spec fn opt_text(s: Option<String>) -> Option<Seq<char>> {
    match s {
        Some(t) => Some(t@),
        None => None,
    }
}

/// The actions as text.
pub open spec fn action_views(actions: Seq<MessageAction>) -> Seq<ActionView> {
    actions.map_values(|a: MessageAction| a@)
}

impl View for InboxMessage {
    type V = MessageView;

    open spec fn view(&self) -> MessageView {
        MessageView {
            id: self.id@,
            subject: self.subject@,
            body: self.body@,
            sender: self.sender@,
            date: self.date@,
            read: self.read,
            actions: action_views(self.actions@),
            player_id: opt_text(self.player_id),
        }
    }
}

pub struct ReceiptView {
    pub key: Seq<char>,
    pub params: Seq<(Seq<char>, Seq<char>)>,
}

impl View for EffectReceipt {
    type V = ReceiptView;

    open spec fn view(&self) -> ReceiptView {
        ReceiptView {
            key: self.i18n_key@,
            params: self.i18n_params@.map_values(|p: (String, String)| (p.0@, p.1@)),
        }
    }
}

fn copy_text(s: &String) -> (r: String)
    ensures
        r@ == s@,
{
    s.clone()
}

fn copy_opt_text(s: &Option<String>) -> (r: Option<String>)
    ensures
        opt_text(r) == opt_text(*s),
{
    match s {
        Some(t) => Some(t.clone()),
        None => None,
    }
}

fn copy_option(o: &ActionOption) -> (r: ActionOption)
    ensures
        r@ == o@,
{
    ActionOption { id: o.id.clone(), label: o.label.clone(), description: o.description.clone() }
}

fn copy_action_type(t: &ActionType) -> (r: ActionType)
    ensures
        r@ == t@,
{
    match t {
        ActionType::ChooseOption { options } => {
            let mut copied: Vec<ActionOption> = Vec::new();
            let mut i: usize = 0;
            while i < options.len()
                invariant
                    i <= options@.len(),
                    copied@.len() == i,
                    forall|j: int| 0 <= j < i ==> (#[trigger] copied@[j])@ == options@[j]@,
                decreases options@.len() - i,
            {
                copied.push(copy_option(&options[i]));
                i = i + 1;
            }
            assert(copied@.map_values(|o: ActionOption| o@) =~= options@.map_values(|o: ActionOption| o@));
            ActionType::ChooseOption { options: copied }
        },
        ActionType::Acknowledge => ActionType::Acknowledge,
        ActionType::Dismiss => ActionType::Dismiss,
        ActionType::NavigateTo { route } => ActionType::NavigateTo { route: route.clone() },
    }
}

fn copy_action(a: &MessageAction) -> (r: MessageAction)
    ensures
        r@ == a@,
{
    MessageAction {
        id: a.id.clone(),
        label: a.label.clone(),
        resolved: a.resolved,
        action_type: copy_action_type(&a.action_type),
    }
}

fn copy_actions(actions: &Vec<MessageAction>) -> (r: Vec<MessageAction>)
    ensures
        action_views(r@) == action_views(actions@),
{
    let mut copied: Vec<MessageAction> = Vec::new();
    let mut i: usize = 0;
    while i < actions.len()
        invariant
            i <= actions@.len(),
            copied@.len() == i,
            forall|j: int| 0 <= j < i ==> (#[trigger] copied@[j])@ == actions@[j]@,
        decreases actions@.len() - i,
    {
        copied.push(copy_action(&actions[i]));
        i = i + 1;
    }
    assert(action_views(copied@) =~= action_views(actions@));
    copied
}

/// A copy of a message, equal to it as text.
pub fn copy_message(m: &InboxMessage) -> (r: InboxMessage)
    ensures
        r@ == m@,
{
    InboxMessage {
        id: m.id.clone(),
        subject: m.subject.clone(),
        body: m.body.clone(),
        sender: m.sender.clone(),
        date: m.date.clone(),
        read: m.read,
        actions: copy_actions(&m.actions),
        player_id: copy_opt_text(&m.player_id),
    }
}

fn copy_receipt(receipt: &EffectReceipt) -> (r: EffectReceipt)
    ensures
        r@ == receipt@,
{
    let mut params: Vec<(String, String)> = Vec::new();
    let mut i: usize = 0;
    while i < receipt.i18n_params.len()
        invariant
            i <= receipt.i18n_params@.len(),
            params@.len() == i,
            forall|j: int|
                0 <= j < i ==> (#[trigger] params@[j]).0@ == receipt.i18n_params@[j].0@ && params@[j].1@
                    == receipt.i18n_params@[j].1@,
        decreases receipt.i18n_params@.len() - i,
    {
        let (k, v) = &receipt.i18n_params[i];
        params.push((k.clone(), v.clone()));
        i = i + 1;
    }
    let r = EffectReceipt { i18n_key: receipt.i18n_key.clone(), i18n_params: params };
    assert(r@.params =~= receipt@.params);
    r
}

/// Index `i` holds the first action with ID `id`.
pub open spec fn first_action_at(actions: Seq<MessageAction>, id: Seq<char>, i: int) -> bool {
    &&& 0 <= i < actions.len()
    &&& actions[i].id@ == id
    &&& forall|j: int| 0 <= j < i ==> (#[trigger] actions[j]).id@ != id
}

/// Index `i` holds the first action (as text) with ID `id`.
pub open spec fn first_action_view_at(actions: Seq<ActionView>, id: Seq<char>, i: int) -> bool {
    &&& 0 <= i < actions.len()
    &&& actions[i].id == id
    &&& forall|j: int| 0 <= j < i ==> (#[trigger] actions[j]).id != id
}

/// The index of the first action with ID `id`, if any.
pub open spec fn action_index(actions: Seq<ActionView>, id: Seq<char>) -> Option<int> {
    if exists|i: int| first_action_view_at(actions, id, i) {
        Some(choose|i: int| first_action_view_at(actions, id, i))
    } else {
        None
    }
}

/// There is only one first action with a given ID.
pub proof fn lemma_first_action_view_unique(actions: Seq<ActionView>, id: Seq<char>, i: int, j: int)
    requires
        first_action_view_at(actions, id, i),
        first_action_view_at(actions, id, j),
    ensures
        i == j,
{
    if i < j {
        assert(actions[i].id != id);
    } else if j < i {
        assert(actions[j].id != id);
    }
}

pub(crate) fn find_action(actions: &Vec<MessageAction>, id: &str) -> (r: Option<usize>)
    ensures
        match r {
            Some(i) => first_action_at(actions@, id@, i as int),
            None => forall|i: int| 0 <= i < actions@.len() ==> (#[trigger] actions@[i]).id@ != id@,
        },
        action_index(action_views(actions@), id@) == match r {
            Some(i) => Some(i as int),
            None => None::<int>,
        },
{
    let ghost views = action_views(actions@);
    let mut i: usize = 0;
    while i < actions.len()
        invariant
            i <= actions@.len(),
            views == action_views(actions@),
            forall|j: int| 0 <= j < i ==> (#[trigger] actions@[j]).id@ != id@,
        decreases actions@.len() - i,
    {
        if crate::text::str_eq(actions[i].id.as_str(), id) {
            proof {
                assert(first_action_view_at(views, id@, i as int)) by {
                    assert forall|j: int| 0 <= j < i implies (#[trigger] views[j]).id != id@ by {
                        assert(actions@[j].id@ != id@);
                    }
                }
                let c = choose|j: int| first_action_view_at(views, id@, j);
                lemma_first_action_view_unique(views, id@, c, i as int);
            }
            return Some(i);
        }
        i = i + 1;
    }
    proof {
        if exists|j: int| first_action_view_at(views, id@, j) {
            let c = choose|j: int| first_action_view_at(views, id@, j);
            assert(actions@[c].id@ != id@);
        }
    }
    None
}

/// What resolving an action did.
#[derive(Debug, Clone, PartialEq, Eq)]
pub enum ResolutionEffect {
    Acknowledged,
    Dismissed,
    NavigateTo { route: String },
    Domain(EffectReceipt),
    Expired { on: Date, reason: String },
}

pub enum EffectView {
    Acknowledged,
    Dismissed,
    NavigateTo(Seq<char>),
    Domain(ReceiptView),
    Expired(Date, Seq<char>),
}

impl View for ResolutionEffect {
    type V = EffectView;

    open spec fn view(&self) -> EffectView {
        match self {
            ResolutionEffect::Acknowledged => EffectView::Acknowledged,
            ResolutionEffect::Dismissed => EffectView::Dismissed,
            ResolutionEffect::NavigateTo { route } => EffectView::NavigateTo(route@),
            ResolutionEffect::Domain(receipt) => EffectView::Domain(receipt@),
            ResolutionEffect::Expired { on, reason } => EffectView::Expired(*on, reason@),
        }
    }
}

/// The recorded resolution of one action of a message.
#[derive(Debug, Clone, PartialEq, Eq)]
pub struct ActionResolution {
    pub action_id: String,
    pub option_id: Option<String>,
    pub effect: ResolutionEffect,
}

pub struct ResolutionView {
    pub action_id: Seq<char>,
    pub option_id: Option<Seq<char>>,
    pub effect: EffectView,
}

impl View for ActionResolution {
    type V = ResolutionView;

    open spec fn view(&self) -> ResolutionView {
        ResolutionView {
            action_id: self.action_id@,
            option_id: opt_text(self.option_id),
            effect: self.effect@,
        }
    }
}

fn copy_effect(e: &ResolutionEffect) -> (r: ResolutionEffect)
    ensures
        r@ == e@,
{
    match e {
        ResolutionEffect::Acknowledged => ResolutionEffect::Acknowledged,
        ResolutionEffect::Dismissed => ResolutionEffect::Dismissed,
        ResolutionEffect::NavigateTo { route } => ResolutionEffect::NavigateTo { route: route.clone() },
        ResolutionEffect::Domain(receipt) => ResolutionEffect::Domain(copy_receipt(receipt)),
        ResolutionEffect::Expired { on, reason } => ResolutionEffect::Expired { on: *on, reason: reason.clone() },
    }
}

fn copy_resolution(res: &ActionResolution) -> (r: ActionResolution)
    ensures
        r@ == res@,
{
    ActionResolution {
        action_id: res.action_id.clone(),
        option_id: copy_opt_text(&res.option_id),
        effect: copy_effect(&res.effect),
    }
}

/// Resolutions as text.
pub open spec fn resolution_views(rs: Seq<ActionResolution>) -> Seq<ResolutionView> {
    rs.map_values(|r: ActionResolution| r@)
}

/// One message delivered to one recipient, with the resolutions of its actions
/// (at most one per action ID) and the resolved actions that a later version of
/// the message no longer carries.
struct Delivery {
    recipient_manager_id: String,
    message: InboxMessage,
    deleted: bool,
    resolutions: Vec<ActionResolution>,
    removed_actions: Vec<MessageAction>,
}

pub struct DeliveryView {
    pub recipient: Seq<char>,
    pub message: MessageView,
    pub deleted: bool,
    pub resolutions: Seq<ResolutionView>,
    pub removed_actions: Seq<ActionView>,
}

impl View for Delivery {
    type V = DeliveryView;

    closed spec fn view(&self) -> DeliveryView {
        DeliveryView {
            recipient: self.recipient_manager_id@,
            message: self.message@,
            deleted: self.deleted,
            resolutions: resolution_views(self.resolutions@),
            removed_actions: action_views(self.removed_actions@),
        }
    }
}

/// Every recipient's inbox: deliveries in arrival order, each owned by the
/// recipient it was delivered to.
pub struct InboxStore {
    deliveries: Vec<Delivery>,
}

impl View for InboxStore {
    type V = Seq<DeliveryView>;

    closed spec fn view(&self) -> Seq<DeliveryView> {
        self.deliveries@.map_values(|d: Delivery| d@)
    }
}

impl Default for InboxStore {
    fn default() -> (r: Self)
        ensures
            r@ == Seq::<DeliveryView>::empty(),
    {
        let r = InboxStore { deliveries: Vec::new() };
        assert(r@ =~= Seq::<DeliveryView>::empty());
        r
    }
}

/// Whether the delivery is `recipient`'s live (not deleted) copy of `message_id`.
pub open spec fn is_live(d: DeliveryView, recipient: Seq<char>, message_id: Seq<char>) -> bool {
    d.recipient == recipient && d.message.id == message_id && !d.deleted
}

pub open spec fn first_live_at(ds: Seq<DeliveryView>, recipient: Seq<char>, message_id: Seq<char>, i: int) -> bool {
    &&& 0 <= i < ds.len()
    &&& is_live(ds[i], recipient, message_id)
    &&& forall|j: int| 0 <= j < i ==> !is_live(#[trigger] ds[j], recipient, message_id)
}

/// The index of `recipient`'s live copy of `message_id`, if any.
pub open spec fn live_index(ds: Seq<DeliveryView>, recipient: Seq<char>, message_id: Seq<char>) -> Option<int> {
    if exists|i: int| first_live_at(ds, recipient, message_id, i) {
        Some(choose|i: int| first_live_at(ds, recipient, message_id, i))
    } else {
        None
    }
}

/// There is only one first live delivery of a message to a recipient.
pub proof fn lemma_first_live_unique(ds: Seq<DeliveryView>, recipient: Seq<char>, message_id: Seq<char>, i: int, j: int)
    requires
        first_live_at(ds, recipient, message_id, i),
        first_live_at(ds, recipient, message_id, j),
    ensures
        i == j,
{
    if i < j {
        assert(!is_live(ds[i], recipient, message_id));
    } else if j < i {
        assert(!is_live(ds[j], recipient, message_id));
    }
}

/// The messages of `recipient`, in delivery order; deleted ones only when
/// `with_deleted`.
pub open spec fn messages_of(ds: Seq<DeliveryView>, recipient: Seq<char>, with_deleted: bool) -> Seq<MessageView>
    decreases ds.len(),
{
    if ds.len() == 0 {
        Seq::empty()
    } else {
        let earlier = messages_of(ds.drop_last(), recipient, with_deleted);
        let d = ds.last();
        if d.recipient == recipient && (with_deleted || !d.deleted) {
            earlier.push(d.message)
        } else {
            earlier
        }
    }
}

/// A delivery with its message marked read.
pub open spec fn read_delivery(d: DeliveryView) -> DeliveryView {
    DeliveryView { message: MessageView { read: true, ..d.message }, ..d }
}

/// A delivery marked deleted.
pub open spec fn deleted_delivery(d: DeliveryView) -> DeliveryView {
    DeliveryView { deleted: true, ..d }
}

/// Every live message of `recipient` marked read; everything else unchanged.
pub open spec fn all_read(ds: Seq<DeliveryView>, recipient: Seq<char>) -> Seq<DeliveryView> {
    Seq::new(
        ds.len(),
        |i: int|
            if ds[i].recipient == recipient && !ds[i].deleted {
                read_delivery(ds[i])
            } else {
                ds[i]
            },
    )
}

/// Whether a message is well formed: a nonblank ID, nonblank distinct action
/// IDs, and for each choice a nonempty list of options with nonblank distinct IDs.
pub open spec fn message_valid(m: MessageView) -> bool {
    &&& !is_blank_spec(m.id)
    &&& forall|i: int| 0 <= i < m.actions.len() ==> action_valid(#[trigger] m.actions[i])
    &&& forall|i: int, j: int|
        0 <= i < j < m.actions.len() ==> (#[trigger] m.actions[i]).id != (#[trigger] m.actions[j]).id
}

pub open spec fn action_valid(a: ActionView) -> bool {
    &&& !is_blank_spec(a.id)
    &&& match a.action_type {
        ActionTypeView::ChooseOption(options) => {
            &&& options.len() > 0
            &&& forall|i: int| 0 <= i < options.len() ==> !is_blank_spec(#[trigger] options[i].id)
            &&& forall|i: int, j: int|
                0 <= i < j < options.len() ==> (#[trigger] options[i]).id != (#[trigger] options[j]).id
        },
        _ => true,
    }
}

fn options_valid(options: &Vec<ActionOption>) -> (r: bool)
    ensures
        r == ({
            let v = options@.map_values(|o: ActionOption| o@);
            &&& v.len() > 0
            &&& forall|i: int| 0 <= i < v.len() ==> !is_blank_spec(#[trigger] v[i].id)
            &&& forall|i: int, j: int| 0 <= i < j < v.len() ==> (#[trigger] v[i]).id != (#[trigger] v[j]).id
        }),
{
    let ghost v = options@.map_values(|o: ActionOption| o@);
    if options.len() == 0 {
        return false;
    }
    let mut i: usize = 0;
    while i < options.len()
        invariant
            i <= options@.len(),
            v == options@.map_values(|o: ActionOption| o@),
            forall|a: int| 0 <= a < i ==> !is_blank_spec(#[trigger] v[a].id),
            forall|a: int, b: int| 0 <= a < b < v.len() && a < i ==> (#[trigger] v[a]).id != (#[trigger] v[b]).id,
        decreases options@.len() - i,
    {
        if is_blank(options[i].id.as_str()) {
            assert(is_blank_spec(v[i as int].id));
            return false;
        }
        let mut j: usize = i + 1;
        while j < options.len()
            invariant
                i < options@.len(),
                i + 1 <= j <= options@.len(),
                v == options@.map_values(|o: ActionOption| o@),
                forall|b: int| i < b < j ==> v[i as int].id != (#[trigger] v[b]).id,
            decreases options@.len() - j,
        {
            if options[i].id == options[j].id {
                assert(v[i as int].id == v[j as int].id);
                return false;
            }
            j = j + 1;
        }
        i = i + 1;
    }
    true
}

fn validate_message(message: &InboxMessage) -> (r: Result<(), InboxError>)
    ensures
        r is Ok <==> message_valid(message@),
        r is Err ==> r == Err::<(), InboxError>(InboxError::InvalidMessage),
{
    let ghost v = message@.actions;
    if is_blank(message.id.as_str()) {
        return Err(InboxError::InvalidMessage);
    }
    let actions = &message.actions;
    let mut i: usize = 0;
    while i < actions.len()
        invariant
            i <= actions@.len(),
            actions == &message.actions,
            v == message@.actions,
            !is_blank_spec(message@.id),
            v == action_views(actions@),
            forall|a: int| 0 <= a < i ==> action_valid(#[trigger] v[a]),
            forall|a: int, b: int| 0 <= a < b < v.len() && a < i ==> (#[trigger] v[a]).id != (#[trigger] v[b]).id,
        decreases actions@.len() - i,
    {
        if is_blank(actions[i].id.as_str()) {
            assert(!action_valid(v[i as int]));
            return Err(InboxError::InvalidMessage);
        }
        let mut j: usize = i + 1;
        while j < actions.len()
            invariant
                i < actions@.len(),
                i + 1 <= j <= actions@.len(),
                v == message@.actions,
                v == action_views(actions@),
                forall|b: int| i < b < j ==> v[i as int].id != (#[trigger] v[b]).id,
            decreases actions@.len() - j,
        {
            if actions[i].id == actions[j].id {
                assert(v[i as int].id == v[j as int].id);
                return Err(InboxError::InvalidMessage);
            }
            j = j + 1;
        }
        match &actions[i].action_type {
            ActionType::ChooseOption { options } => {
                if !options_valid(options) {
                    assert(!action_valid(v[i as int]));
                    return Err(InboxError::InvalidMessage);
                }
            },
            _ => {},
        }
        i = i + 1;
    }
    Ok(())
}

/// Whether cleanup removes the delivery: a live, read message of `recipient` with
/// every action resolved, unless its date parses and is at most fourteen days
/// before `today` (later dates included).
pub open spec fn clearable(d: DeliveryView, recipient: Seq<char>, today: Date) -> bool {
    &&& d.recipient == recipient
    &&& !d.deleted
    &&& d.message.read
    &&& forall|a: int| 0 <= a < d.message.actions.len() ==> (#[trigger] d.message.actions[a]).resolved
    &&& !(parsed_ymd(d.message.date) matches Some(n) && today.day_number() - n <= 14)
}

/// The store after cleanup.
pub open spec fn cleared(ds: Seq<DeliveryView>, recipient: Seq<char>, today: Date) -> Seq<DeliveryView> {
    Seq::new(
        ds.len(),
        |i: int|
            if clearable(ds[i], recipient, today) {
                deleted_delivery(ds[i])
            } else {
                ds[i]
            },
    )
}

/// How many deliveries cleanup removes.
pub open spec fn clearable_count(ds: Seq<DeliveryView>, recipient: Seq<char>, today: Date) -> nat
    decreases ds.len(),
{
    if ds.len() == 0 {
        0
    } else {
        clearable_count(ds.drop_last(), recipient, today) + if clearable(ds.last(), recipient, today) {
            1nat
        } else {
            0nat
        }
    }
}

/// The text of an optional `&str`.
pub open spec fn opt_str(s: Option<&str>) -> Option<Seq<char>> {
    match s {
        Some(t) => Some(t@),
        None => None,
    }
}

pub open spec fn first_resolution_at(rs: Seq<ResolutionView>, id: Seq<char>, i: int) -> bool {
    &&& 0 <= i < rs.len()
    &&& rs[i].action_id == id
    &&& forall|j: int| 0 <= j < i ==> (#[trigger] rs[j]).action_id != id
}

/// The recorded resolution of action `id`, if any.
pub open spec fn resolution_for(rs: Seq<ResolutionView>, id: Seq<char>) -> Option<ResolutionView> {
    if exists|i: int| first_resolution_at(rs, id, i) {
        Some(rs[choose|i: int| first_resolution_at(rs, id, i)])
    } else {
        None
    }
}

/// Record `res` as the resolution of its action, replacing an earlier one.
pub open spec fn insert_resolution(rs: Seq<ResolutionView>, res: ResolutionView) -> Seq<ResolutionView> {
    if exists|i: int| first_resolution_at(rs, res.action_id, i) {
        rs.update(choose|i: int| first_resolution_at(rs, res.action_id, i), res)
    } else {
        rs.push(res)
    }
}

/// There is only one first resolution recorded for an action ID.
pub proof fn lemma_first_resolution_unique(rs: Seq<ResolutionView>, id: Seq<char>, i: int, j: int)
    requires
        first_resolution_at(rs, id, i),
        first_resolution_at(rs, id, j),
    ensures
        i == j,
{
    if i < j {
        assert(rs[i].action_id != id);
    } else if j < i {
        assert(rs[j].action_id != id);
    }
}

/// Whether a choice offers option `id`.
pub open spec fn offered(options: Seq<OptionView>, id: Seq<char>) -> bool {
    exists|i: int| 0 <= i < options.len() && (#[trigger] options[i]).id == id
}

/// What resolving an action comes to, before any domain effect runs.
pub enum ResolvePlan {
    /// Refused with this error; nothing changes.
    Refuse(InboxError),
    /// Already resolved with the same option: the recorded resolution again.
    Replay(ResolutionView),
    /// Action `1` of delivery `0` resolves with this effect.
    Resolve(int, int, EffectView),
    /// Action `1` of delivery `0` is a choice whose effect the domain decides.
    Apply(int, int),
}

/// The checks of a resolution, in order: the live message, an earlier
/// resolution of the action (expired, the same option, or another), the first
/// action with the ID, that it is open, and that the option fits its kind.
pub open spec fn resolve_plan(
    ds: Seq<DeliveryView>,
    recipient: Seq<char>,
    message_id: Seq<char>,
    action_id: Seq<char>,
    option_id: Option<Seq<char>>,
) -> ResolvePlan {
    match live_index(ds, recipient, message_id) {
        None => ResolvePlan::Refuse(InboxError::Unavailable),
        Some(i) => {
            let d = ds[i];
            match resolution_for(d.resolutions, action_id) {
                Some(res) => if res.effect is Expired {
                    ResolvePlan::Refuse(InboxError::Expired)
                } else if res.option_id == option_id {
                    ResolvePlan::Replay(res)
                } else {
                    ResolvePlan::Refuse(InboxError::AlreadyResolved)
                },
                None => match action_index(d.message.actions, action_id) {
                    None => ResolvePlan::Refuse(InboxError::Unavailable),
                    Some(a) => {
                        let action = d.message.actions[a];
                        if action.resolved {
                            ResolvePlan::Refuse(InboxError::AlreadyResolved)
                        } else {
                            match action.action_type {
                                ActionTypeView::ChooseOption(options) => if option_id matches Some(sel)
                                    && offered(options, sel) {
                                    ResolvePlan::Apply(i, a)
                                } else {
                                    ResolvePlan::Refuse(InboxError::InvalidOption)
                                },
                                ActionTypeView::Acknowledge => if option_id is Some {
                                    ResolvePlan::Refuse(InboxError::InvalidOption)
                                } else {
                                    ResolvePlan::Resolve(i, a, EffectView::Acknowledged)
                                },
                                ActionTypeView::Dismiss => if option_id is Some {
                                    ResolvePlan::Refuse(InboxError::InvalidOption)
                                } else {
                                    ResolvePlan::Resolve(i, a, EffectView::Dismissed)
                                },
                                ActionTypeView::NavigateTo(route) => if option_id is Some {
                                    ResolvePlan::Refuse(InboxError::InvalidOption)
                                } else {
                                    ResolvePlan::Resolve(i, a, EffectView::NavigateTo(route))
                                },
                            }
                        }
                    },
                },
            }
        },
    }
}

/// The store after action `a` of delivery `i` resolves with `res`: the action is
/// marked resolved and the resolution recorded.
pub open spec fn after_resolution(ds: Seq<DeliveryView>, i: int, a: int, res: ResolutionView) -> Seq<DeliveryView> {
    let d = ds[i];
    ds.update(
        i,
        DeliveryView {
            message: MessageView {
                actions: d.message.actions.update(a, ActionView { resolved: true, ..d.message.actions[a] }),
                ..d.message
            },
            resolutions: insert_resolution(d.resolutions, res),
            ..d
        },
    )
}

fn all_resolved(actions: &Vec<MessageAction>) -> (r: bool)
    ensures
        r == forall|a: int| 0 <= a < actions@.len() ==> (#[trigger] action_views(actions@)[a]).resolved,
{
    let ghost v = action_views(actions@);
    let mut a: usize = 0;
    while a < actions.len()
        invariant
            a <= actions@.len(),
            v == action_views(actions@),
            forall|b: int| 0 <= b < a ==> (#[trigger] v[b]).resolved,
        decreases actions@.len() - a,
    {
        if !actions[a].resolved {
            assert(!v[a as int].resolved);
            return false;
        }
        a = a + 1;
    }
    true
}


/// Whether some delivery is addressed to `name`.
pub open spec fn has_recipient(ds: Seq<DeliveryView>, name: Seq<char>) -> bool {
    exists|i: int| 0 <= i < ds.len() && ds[i].recipient == name
}

/// Whether `name` is among `names`.
pub open spec fn names_hold(names: Seq<String>, name: Seq<char>) -> bool {
    exists|k: int| 0 <= k < names.len() && names[k]@ == name
}

/// Whether two deliveries share recipient and message ID.
pub open spec fn same_key(a: DeliveryView, b: DeliveryView) -> bool {
    a.recipient == b.recipient && a.message.id == b.message.id
}

/// The action a resolution names: the first with its ID in the message, else the
/// first among the removed actions.
pub open spec fn named_action(d: DeliveryView, id: Seq<char>) -> Option<ActionView> {
    match action_index(d.message.actions, id) {
        Some(a) => Some(d.message.actions[a]),
        None => match action_index(d.removed_actions, id) {
            Some(k) => Some(d.removed_actions[k]),
            None => None,
        },
    }
}

/// Whether a recorded effect (and option) fits the kind of action it resolved.
pub open spec fn effect_fits(kind: ActionTypeView, effect: EffectView, option_id: Option<Seq<char>>) -> bool {
    match effect {
        EffectView::Expired(_, _) => option_id is None,
        EffectView::Acknowledged => option_id is None && kind is Acknowledge,
        EffectView::Dismissed => option_id is None && kind is Dismiss,
        EffectView::NavigateTo(recorded) => option_id is None && (kind matches ActionTypeView::NavigateTo(
            route,
        ) && route == recorded),
        EffectView::Domain(_) => (kind matches ActionTypeView::ChooseOption(options) && (option_id matches Some(
            sel,
        ) && offered(options, sel))),
    }
}

/// A resolution names a resolved action and fits its kind.
pub open spec fn resolution_valid(d: DeliveryView, res: ResolutionView) -> bool {
    named_action(d, res.action_id) matches Some(action) && action.resolved && effect_fits(
        action.action_type,
        res.effect,
        res.option_id,
    )
}

/// A removed action was resolved, keeps its resolution, and no longer appears in
/// the message.
pub open spec fn removed_valid(d: DeliveryView, action: ActionView) -> bool {
    &&& action.resolved
    &&& resolution_for(d.resolutions, action.id) is Some
    &&& action_index(d.message.actions, action.id) is None
}

/// A delivery is sound: a nonblank recipient, a valid message, valid removed
/// actions and resolutions, and at most one resolution (and one removed action)
/// per action ID.
pub open spec fn delivery_valid(d: DeliveryView) -> bool {
    &&& !is_blank_spec(d.recipient)
    &&& message_valid(d.message)
    &&& forall|k: int| 0 <= k < d.removed_actions.len() ==> removed_valid(d, #[trigger] d.removed_actions[k])
    &&& forall|k: int| 0 <= k < d.resolutions.len() ==> resolution_valid(d, #[trigger] d.resolutions[k])
    &&& forall|k: int, l: int|
        0 <= k < l < d.resolutions.len() ==> (#[trigger] d.resolutions[k]).action_id != (
        #[trigger] d.resolutions[l]).action_id
    &&& forall|k: int, l: int|
        0 <= k < l < d.removed_actions.len() ==> (#[trigger] d.removed_actions[k]).id != (
        #[trigger] d.removed_actions[l]).id
}


/// Whether `actions` has an action with ID `id`.
pub open spec fn has_action(actions: Seq<ActionView>, id: Seq<char>) -> bool {
    action_index(actions, id) is Some
}

/// The actions of `old` that `new` no longer has, in order.
pub open spec fn dropped_actions(old: Seq<ActionView>, new: Seq<ActionView>) -> Seq<ActionView>
    decreases old.len(),
{
    if old.len() == 0 {
        Seq::empty()
    } else {
        let prev = dropped_actions(old.drop_last(), new);
        if has_action(new, old.last().id) {
            prev
        } else {
            prev.push(old.last())
        }
    }
}

/// The archive after filing `a` under its ID (replacing an entry with that ID).
pub open spec fn archive_action(archive: Seq<ActionView>, a: ActionView) -> Seq<ActionView> {
    match action_index(archive, a.id) {
        Some(k) => archive.update(k, a),
        None => archive.push(a),
    }
}

/// The archive after filing each of `dropped` in turn.
pub open spec fn archived(archive: Seq<ActionView>, dropped: Seq<ActionView>) -> Seq<ActionView>
    decreases dropped.len(),
{
    if dropped.len() == 0 {
        archive
    } else {
        archive_action(archived(archive, dropped.drop_last()), dropped.last())
    }
}

/// A delivered message may be replaced by `m` when every action `m` drops was
/// resolved and has its resolution recorded, and no action of `m` reuses the
/// ID of an action dropped earlier.
pub open spec fn replacement_allowed(d: DeliveryView, m: MessageView) -> bool {
    let dropped = dropped_actions(d.message.actions, m.actions);
    &&& forall|k: int|
        0 <= k < dropped.len() ==> (#[trigger] dropped[k]).resolved && resolution_for(
            d.resolutions,
            dropped[k].id,
        ) is Some
    &&& forall|k: int| 0 <= k < m.actions.len() ==> !has_action(d.removed_actions, (#[trigger] m.actions[k]).id)
}

/// The delivery carrying `m` in place of its message, the dropped actions filed
/// away with the removed ones.
pub open spec fn replaced_delivery(d: DeliveryView, m: MessageView) -> DeliveryView {
    DeliveryView {
        message: m,
        removed_actions: archived(d.removed_actions, dropped_actions(d.message.actions, m.actions)),
        ..d
    }
}

/// The inbox is sound: every delivery is, and no recipient has two deliveries
/// of one message ID.
pub open spec fn store_valid(ds: Seq<DeliveryView>) -> bool {
    &&& forall|i: int| 0 <= i < ds.len() ==> delivery_valid(#[trigger] ds[i])
    &&& forall|i: int, j: int| 0 <= i < j < ds.len() ==> !same_key(#[trigger] ds[i], #[trigger] ds[j])
}

fn find_resolution(rs: &Vec<ActionResolution>, id: &str) -> (r: Option<usize>)
    ensures
        match r {
            Some(i) => i < rs@.len() && resolution_for(resolution_views(rs@), id@)
                == Some(rs@[i as int]@) && first_resolution_at(resolution_views(rs@), id@, i as int),
            None => resolution_for(resolution_views(rs@), id@) is None && !exists|j: int|
                #[trigger] first_resolution_at(resolution_views(rs@), id@, j),
        },
{
    let ghost v = resolution_views(rs@);
    let mut i: usize = 0;
    while i < rs.len()
        invariant
            i <= rs@.len(),
            v == resolution_views(rs@),
            forall|j: int| 0 <= j < i ==> (#[trigger] v[j]).action_id != id@,
        decreases rs@.len() - i,
    {
        if rs[i].action_id == String::from_str(id) {
            proof {
                assert(first_resolution_at(v, id@, i as int));
                let c = choose|j: int| first_resolution_at(v, id@, j);
                lemma_first_resolution_unique(v, id@, c, i as int);
            }
            return Some(i);
        }
        i = i + 1;
    }
    proof {
        if exists|j: int| first_resolution_at(v, id@, j) {
            let c = choose|j: int| first_resolution_at(v, id@, j);
            assert(v[c].action_id != id@);
        }
    }
    None
}

fn insert_into(rs: &mut Vec<ActionResolution>, res: ActionResolution)
    ensures
        resolution_views(final(rs)@) == insert_resolution(
            resolution_views(old(rs)@),
            res@,
        ),
{
    let ghost v = resolution_views(rs@);
    match find_resolution(rs, res.action_id.as_str()) {
        Some(i) => {
            let ghost rv = res@;
            rs.set(i, res);
            proof {
                let c = choose|j: int| first_resolution_at(v, rv.action_id, j);
                lemma_first_resolution_unique(v, rv.action_id, c, i as int);
                assert(resolution_views(rs@) =~= v.update(i as int, rv));
            }
        },
        None => {
            let ghost rv = res@;
            rs.push(res);
            assert(resolution_views(rs@) =~= v.push(rv));
        },
    }
}

fn option_offered(options: &Vec<ActionOption>, id: &str) -> (r: bool)
    ensures
        r == offered(options@.map_values(|o: ActionOption| o@), id@),
{
    let ghost v = options@.map_values(|o: ActionOption| o@);
    let mut i: usize = 0;
    while i < options.len()
        invariant
            i <= options@.len(),
            v == options@.map_values(|o: ActionOption| o@),
            forall|j: int| 0 <= j < i ==> (#[trigger] v[j]).id != id@,
        decreases options@.len() - i,
    {
        if options[i].id == String::from_str(id) {
            assert(v[i as int].id == id@);
            return true;
        }
        i = i + 1;
    }
    false
}

fn same_option(recorded: &Option<String>, option_id: Option<&str>) -> (r: bool)
    ensures
        r == (opt_text(*recorded) == opt_str(option_id)),
{
    match (recorded, option_id) {
        (Some(a), Some(b)) => *a == String::from_str(b),
        (None, None) => true,
        _ => false,
    }
}

fn effect_fits_kind(kind: &ActionType, effect: &ResolutionEffect, option_id: &Option<String>) -> (r: bool)
    ensures
        r == effect_fits(kind@, effect@, opt_text(*option_id)),
{
    match effect {
        ResolutionEffect::Expired { .. } => option_id.is_none(),
        ResolutionEffect::Acknowledged => option_id.is_none() && match kind {
            ActionType::Acknowledge => true,
            _ => false,
        },
        ResolutionEffect::Dismissed => option_id.is_none() && match kind {
            ActionType::Dismiss => true,
            _ => false,
        },
        ResolutionEffect::NavigateTo { route: recorded } => option_id.is_none() && match kind {
            ActionType::NavigateTo { route } => *route == *recorded,
            _ => false,
        },
        ResolutionEffect::Domain(_) => match (kind, option_id) {
            (ActionType::ChooseOption { options }, Some(sel)) => option_offered(options, sel.as_str()),
            _ => false,
        },
    }
}

fn removed_ok(d: &Delivery) -> (r: bool)
    ensures
        r == forall|k: int| 0 <= k < d@.removed_actions.len() ==> removed_valid(d@, #[trigger] d@.removed_actions[k]),
{
    let ghost dv = d@;
    let mut k: usize = 0;
    while k < d.removed_actions.len()
        invariant
            k <= d.removed_actions@.len(),
            dv == d@,
            dv.removed_actions == action_views(d.removed_actions@),
            dv.resolutions == resolution_views(d.resolutions@),
            dv.message.actions == action_views(d.message.actions@),
            forall|j: int| 0 <= j < k ==> removed_valid(dv, #[trigger] dv.removed_actions[j]),
        decreases d.removed_actions@.len() - k,
    {
        let action = &d.removed_actions[k];
        let ok = action.resolved && find_resolution(&d.resolutions, action.id.as_str()).is_some()
            && find_action(&d.message.actions, action.id.as_str()).is_none();
        if !ok {
            assert(!removed_valid(dv, dv.removed_actions[k as int]));
            return false;
        }
        k = k + 1;
    }
    true
}

fn resolutions_ok(d: &Delivery) -> (r: bool)
    ensures
        r == forall|k: int| 0 <= k < d@.resolutions.len() ==> resolution_valid(d@, #[trigger] d@.resolutions[k]),
{
    let ghost dv = d@;
    let mut k: usize = 0;
    while k < d.resolutions.len()
        invariant
            k <= d.resolutions@.len(),
            dv == d@,
            dv.removed_actions == action_views(d.removed_actions@),
            dv.resolutions == resolution_views(d.resolutions@),
            dv.message.actions == action_views(d.message.actions@),
            forall|j: int| 0 <= j < k ==> resolution_valid(dv, #[trigger] dv.resolutions[j]),
        decreases d.resolutions@.len() - k,
    {
        let res = &d.resolutions[k];
        assert(dv.resolutions[k as int] == res@);
        let action = match find_action(&d.message.actions, res.action_id.as_str()) {
            Some(a) => &d.message.actions[a],
            None => match find_action(&d.removed_actions, res.action_id.as_str()) {
                Some(a) => &d.removed_actions[a],
                None => {
                    assert(named_action(dv, res@.action_id) is None);
                    assert(!resolution_valid(dv, dv.resolutions[k as int]));
                    return false;
                },
            },
        };
        assert(named_action(dv, res@.action_id) == Some(action@));
        if !(action.resolved && effect_fits_kind(&action.action_type, &res.effect, &res.option_id)) {
            assert(!resolution_valid(dv, dv.resolutions[k as int]));
            return false;
        }
        k = k + 1;
    }
    true
}

fn keys_distinct(d: &Delivery) -> (r: bool)
    ensures
        r == ({
            &&& forall|k: int, l: int|
                0 <= k < l < d@.resolutions.len() ==> (#[trigger] d@.resolutions[k]).action_id != (
                #[trigger] d@.resolutions[l]).action_id
            &&& forall|k: int, l: int|
                0 <= k < l < d@.removed_actions.len() ==> (#[trigger] d@.removed_actions[k]).id != (
                #[trigger] d@.removed_actions[l]).id
        }),
{
    let ghost rs = d@.resolutions;
    let mut k: usize = 0;
    while k < d.resolutions.len()
        invariant
            k <= d.resolutions@.len(),
            rs == d@.resolutions,
            rs == resolution_views(d.resolutions@),
            forall|a: int, b: int| 0 <= a < b < rs.len() && a < k ==> (#[trigger] rs[a]).action_id != (#[trigger] rs[b]).action_id,
        decreases d.resolutions@.len() - k,
    {
        let mut l: usize = k + 1;
        while l < d.resolutions.len()
            invariant
                k < d.resolutions@.len(),
                k + 1 <= l <= d.resolutions@.len(),
                rs == resolution_views(d.resolutions@),
                forall|b: int| k < b < l ==> rs[k as int].action_id != (#[trigger] rs[b]).action_id,
            decreases d.resolutions@.len() - l,
        {
            if d.resolutions[k].action_id == d.resolutions[l].action_id {
                assert(rs[k as int].action_id == rs[l as int].action_id);
                return false;
            }
            l = l + 1;
        }
        k = k + 1;
    }
    let ghost ra = d@.removed_actions;
    let mut k: usize = 0;
    while k < d.removed_actions.len()
        invariant
            k <= d.removed_actions@.len(),
            ra == d@.removed_actions,
            ra == action_views(d.removed_actions@),
            rs == d@.resolutions,
            forall|a: int, b: int| 0 <= a < b < rs.len() ==> (#[trigger] rs[a]).action_id != (#[trigger] rs[b]).action_id,
            forall|a: int, b: int| 0 <= a < b < ra.len() && a < k ==> (#[trigger] ra[a]).id != (#[trigger] ra[b]).id,
        decreases d.removed_actions@.len() - k,
    {
        let mut l: usize = k + 1;
        while l < d.removed_actions.len()
            invariant
                k < d.removed_actions@.len(),
                k + 1 <= l <= d.removed_actions@.len(),
                ra == action_views(d.removed_actions@),
                forall|b: int| k < b < l ==> ra[k as int].id != (#[trigger] ra[b]).id,
            decreases d.removed_actions@.len() - l,
        {
            if d.removed_actions[k].id == d.removed_actions[l].id {
                assert(ra[k as int].id == ra[l as int].id);
                return false;
            }
            l = l + 1;
        }
        k = k + 1;
    }
    true
}

fn delivery_ok(d: &Delivery) -> (r: bool)
    ensures
        r == delivery_valid(d@),
{
    !is_blank(d.recipient_manager_id.as_str()) && validate_message(&d.message).is_ok() && removed_ok(d)
        && resolutions_ok(d) && keys_distinct(d)
}

impl InboxStore {
    fn find_live(&self, recipient: &str, message_id: &str) -> (r: Option<usize>)
        ensures
            live_index(self@, recipient@, message_id@) == match r {
                Some(i) => Some(i as int),
                None => None::<int>,
            },
            r matches Some(i) ==> i < self@.len(),
    {
        let ghost ds = self@;
        let mut i: usize = 0;
        while i < self.deliveries.len()
            invariant
                i <= self.deliveries@.len(),
                ds == self@,
                ds == self.deliveries@.map_values(|d: Delivery| d@),
                forall|j: int| 0 <= j < i ==> !is_live(#[trigger] ds[j], recipient@, message_id@),
            decreases self.deliveries@.len() - i,
        {
            let d = &self.deliveries[i];
            if d.recipient_manager_id == String::from_str(recipient) && d.message.id == String::from_str(message_id) && !d.deleted {
                proof {
                    assert(first_live_at(ds, recipient@, message_id@, i as int));
                    let c = choose|j: int| first_live_at(ds, recipient@, message_id@, j);
                    lemma_first_live_unique(ds, recipient@, message_id@, c, i as int);
                }
                return Some(i);
            }
            i = i + 1;
        }
        proof {
            if exists|j: int| first_live_at(ds, recipient@, message_id@, j) {
                let c = choose|j: int| first_live_at(ds, recipient@, message_id@, j);
                assert(!is_live(ds[c], recipient@, message_id@));
            }
        }
        None
    }

    /// Every message ever delivered to `recipient`, deleted ones included.
    pub fn history(&self, recipient: &str) -> (r: Vec<InboxMessage>)
        ensures
            r@.map_values(|m: InboxMessage| m@) == messages_of(self@, recipient@, true),
    {
        self.collect_messages(recipient, true)
    }

    /// The live messages of `recipient`, in delivery order.
    pub fn list(&self, recipient: &str) -> (r: Vec<InboxMessage>)
        ensures
            r@.map_values(|m: InboxMessage| m@) == messages_of(self@, recipient@, false),
    {
        self.collect_messages(recipient, false)
    }

    fn collect_messages(&self, recipient: &str, with_deleted: bool) -> (r: Vec<InboxMessage>)
        ensures
            r@.map_values(|m: InboxMessage| m@) == messages_of(self@, recipient@, with_deleted),
    {
        let ghost ds = self@;
        let mut out: Vec<InboxMessage> = Vec::new();
        let mut i: usize = 0;
        while i < self.deliveries.len()
            invariant
                i <= self.deliveries@.len(),
                ds == self.deliveries@.map_values(|d: Delivery| d@),
                out@.map_values(|m: InboxMessage| m@) == messages_of(ds.take(i as int), recipient@, with_deleted),
            decreases self.deliveries@.len() - i,
        {
            assert(ds.take(i as int + 1).drop_last() =~= ds.take(i as int));
            let d = &self.deliveries[i];
            if d.recipient_manager_id == String::from_str(recipient) && (with_deleted || !d.deleted) {
                let ghost before = out@;
                out.push(copy_message(&d.message));
                assert(out@.map_values(|m: InboxMessage| m@) =~= before.map_values(|m: InboxMessage| m@).push(d.message@));
            }
            i = i + 1;
        }
        assert(ds.take(i as int) =~= ds);
        out
    }

    /// Whether `recipient` was ever delivered `message_id`, deleted or not.
    pub fn contains_delivery(&self, recipient: &str, message_id: &str) -> (r: bool)
        ensures
            r == exists|i: int|
                0 <= i < self@.len() && (#[trigger] self@[i]).recipient == recipient@ && self@[i].message.id
                    == message_id@,
    {
        let ghost ds = self@;
        let mut i: usize = 0;
        while i < self.deliveries.len()
            invariant
                i <= self.deliveries@.len(),
                ds == self.deliveries@.map_values(|d: Delivery| d@),
                forall|j: int|
                    0 <= j < i ==> !((#[trigger] ds[j]).recipient == recipient@ && ds[j].message.id == message_id@),
            decreases self.deliveries@.len() - i,
        {
            let d = &self.deliveries[i];
            if d.recipient_manager_id == String::from_str(recipient) && d.message.id == String::from_str(message_id) {
                assert(ds[i as int].recipient == recipient@ && ds[i as int].message.id == message_id@);
                return true;
            }
            i = i + 1;
        }
        false
    }

    /// Deliver `message` to `recipient`. A second delivery of the same message ID
    /// to the same recipient changes nothing, even when the first was deleted.
    pub fn deliver(&mut self, recipient: &str, message: InboxMessage) -> (r: Result<bool, InboxError>)
        ensures
            is_blank_spec(recipient@) || !message_valid(message@) ==> r == Err::<bool, InboxError>(
                InboxError::InvalidMessage,
            ) && final(self)@ == old(self)@,
            !is_blank_spec(recipient@) && message_valid(message@) ==> {
                if exists|i: int|
                    0 <= i < old(self)@.len() && (#[trigger] old(self)@[i]).recipient == recipient@
                        && old(self)@[i].message.id == message@.id {
                    r == Ok::<bool, InboxError>(false) && final(self)@ == old(self)@
                } else {
                    r == Ok::<bool, InboxError>(true) && final(self)@ == old(self)@.push(
                        DeliveryView {
                            recipient: recipient@,
                            message: message@,
                            deleted: false,
                            resolutions: Seq::empty(),
                            removed_actions: Seq::empty(),
                        },
                    )
                }
            },
    {
        if is_blank(recipient) {
            return Err(InboxError::InvalidMessage);
        }
        match validate_message(&message) {
            Err(e) => {
                return Err(e);
            },
            Ok(()) => {},
        }
        if self.contains_delivery(recipient, message.id.as_str()) {
            return Ok(false);
        }
        let d = Delivery {
            recipient_manager_id: String::from_str(recipient),
            message,
            deleted: false,
            resolutions: Vec::new(),
            removed_actions: Vec::new(),
        };
        let ghost before = self@;
        self.deliveries.push(d);
        assert(d@.resolutions =~= Seq::<ResolutionView>::empty());
        assert(d@.removed_actions =~= Seq::<ActionView>::empty());
        assert(self@ =~= before.push(d@));
        Ok(true)
    }

    /// `recipient`'s live copy of `message_id`.
    pub fn get(&self, recipient: &str, message_id: &str) -> (r: Result<InboxMessage, InboxError>)
        ensures
            match live_index(self@, recipient@, message_id@) {
                None => r == Err::<InboxMessage, InboxError>(InboxError::Unavailable),
                Some(i) => r matches Ok(m) && m@ == self@[i].message,
            },
    {
        match self.find_live(recipient, message_id) {
            None => Err(InboxError::Unavailable),
            Some(i) => {
                let m = copy_message(&self.deliveries[i].message);
                assert(self@[i as int] == self.deliveries@[i as int]@);
                Ok(m)
            },
        }
    }

    /// Mark `recipient`'s live copy of `message_id` read.
    pub fn mark_read(&mut self, recipient: &str, message_id: &str) -> (r: Result<(), InboxError>)
        ensures
            match live_index(old(self)@, recipient@, message_id@) {
                None => r == Err::<(), InboxError>(InboxError::Unavailable) && final(self)@ == old(self)@,
                Some(i) => r == Ok::<(), InboxError>(()) && final(self)@ == old(self)@.update(
                    i,
                    read_delivery(old(self)@[i]),
                ),
            },
    {
        match self.find_live(recipient, message_id) {
            None => Err(InboxError::Unavailable),
            Some(i) => {
                let ghost before = self@;
                self.deliveries[i].message.read = true;
                proof {
                    assert(self.deliveries@[i as int]@.message.actions =~= before[i as int].message.actions);
                    assert(self.deliveries@[i as int]@ == read_delivery(before[i as int]));
                    assert(self@ =~= before.update(i as int, read_delivery(before[i as int])));
                }
                Ok(())
            },
        }
    }

    /// Mark every live message of `recipient` read.
    pub fn mark_all_read(&mut self, recipient: &str)
        ensures
            final(self)@ == all_read(old(self)@, recipient@),
    {
        let ghost before = self@;
        let mut i: usize = 0;
        while i < self.deliveries.len()
            invariant
                i <= self.deliveries@.len(),
                self@.len() == before.len(),
                forall|j: int|
                    0 <= j < before.len() ==> (#[trigger] self@[j]) == if j < i {
                        all_read(before, recipient@)[j]
                    } else {
                        before[j]
                    },
            decreases self.deliveries@.len() - i,
        {
            assert(self@[i as int] == before[i as int]);
            let ghost start = self@;
            if self.deliveries[i].recipient_manager_id == String::from_str(recipient) && !self.deliveries[i].deleted {
                let ghost prev = self@;
                self.deliveries[i].message.read = true;
                proof {
                    assert(self.deliveries@[i as int]@.message.actions =~= prev[i as int].message.actions);
                    assert(self@[i as int] == read_delivery(prev[i as int]));
                    assert forall|j: int| 0 <= j < before.len() && j != i implies self@[j] == prev[j] by {
                        assert(self@[j] == self.deliveries@[j]@);
                    }
                }
            }
            assert(self@[i as int] == all_read(before, recipient@)[i as int]);
            assert forall|j: int| 0 <= j < before.len() && j != i implies (#[trigger] self@[j]) == start[j] by {
                assert(self@[j] == self.deliveries@[j]@);
            }
            i = i + 1;
        }
        assert(self@ =~= all_read(before, recipient@));
    }

    /// Delete `recipient`'s live copy of `message_id`; the delivery stays on
    /// record, so the same message is never delivered to them again.
    pub fn delete(&mut self, recipient: &str, message_id: &str) -> (r: Result<(), InboxError>)
        ensures
            match live_index(old(self)@, recipient@, message_id@) {
                None => r == Err::<(), InboxError>(InboxError::Unavailable) && final(self)@ == old(self)@,
                Some(i) => r == Ok::<(), InboxError>(()) && final(self)@ == old(self)@.update(
                    i,
                    deleted_delivery(old(self)@[i]),
                ),
            },
    {
        match self.find_live(recipient, message_id) {
            None => Err(InboxError::Unavailable),
            Some(i) => {
                let ghost before = self@;
                self.deliveries[i].deleted = true;
                proof {
                    assert(self.deliveries@[i as int]@ == deleted_delivery(before[i as int]));
                    assert(self@ =~= before.update(i as int, deleted_delivery(before[i as int])));
                }
                Ok(())
            },
        }
    }

    /// Cleanup: delete `recipient`'s read messages whose actions are all resolved
    /// and that are more than fourteen days old (or whose date does not parse).
    /// Returns how many were deleted.
    pub fn clear_old(&mut self, recipient: &str, today: Date) -> (r: usize)
        ensures
            final(self)@ == cleared(old(self)@, recipient@, today),
            r == clearable_count(old(self)@, recipient@, today),
    {
        let ghost before = self@;
        let mut removed: usize = 0;
        let mut i: usize = 0;
        while i < self.deliveries.len()
            invariant
                i <= self.deliveries@.len(),
                self@.len() == before.len(),
                removed == clearable_count(before.take(i as int), recipient@, today),
                removed <= i,
                forall|j: int|
                    0 <= j < before.len() ==> (#[trigger] self@[j]) == if j < i {
                        cleared(before, recipient@, today)[j]
                    } else {
                        before[j]
                    },
            decreases self.deliveries@.len() - i,
        {
            assert(before.take(i as int + 1).drop_last() =~= before.take(i as int));
            assert(self@[i as int] == before[i as int]);
            let d = &self.deliveries[i];
            let mut clear = d.recipient_manager_id == String::from_str(recipient) && !d.deleted && d.message.read;
            if clear {
                clear = all_resolved(&d.message.actions);
            }
            if clear {
                match Date::parse_ymd(d.message.date.as_str()) {
                    Some(date) => {
                        if today.days_since(date) <= 14 {
                            clear = false;
                        }
                    },
                    None => {},
                }
            }
            assert(d@ == before[i as int]);
            assert(clear == clearable(before[i as int], recipient@, today));
            let ghost start = self@;
            if clear {
                let ghost prev = self@;
                self.deliveries[i].deleted = true;
                proof {
                    assert(self@[i as int] == deleted_delivery(prev[i as int]));
                    assert forall|j: int| 0 <= j < before.len() && j != i implies self@[j] == prev[j] by {
                        assert(self@[j] == self.deliveries@[j]@);
                    }
                }
                removed = removed + 1;
            }
            assert(self@[i as int] == cleared(before, recipient@, today)[i as int]);
            assert forall|j: int| 0 <= j < before.len() && j != i implies (#[trigger] self@[j]) == start[j] by {
                assert(self@[j] == self.deliveries@[j]@);
            }
            i = i + 1;
        }
        assert(self@ =~= cleared(before, recipient@, today));
        assert(before.take(i as int) =~= before);
        removed
    }

    /// The message of delivery `i`, as stored.
    pub closed spec fn message_at(self, i: int) -> InboxMessage {
        self.deliveries@[i].message
    }

    /// Action `a` of the message of delivery `i`, as stored.
    pub closed spec fn action_at(self, i: int, a: int) -> MessageAction {
        self.deliveries@[i].message.actions@[a]
    }

    /// The stored message and action are the ones the view shows.
    pub proof fn lemma_stored_views(self, i: int, a: int)
        requires
            0 <= i < self@.len(),
            0 <= a < self@[i].message.actions.len(),
        ensures
            self.message_at(i)@ == self@[i].message,
            self.action_at(i, a)@ == self@[i].message.actions[a],
    {
    }

    /// Resolve action `action_id` of `recipient`'s message, once. A choice runs
    /// `apply` with the message, the action and the chosen option and records its
    /// receipt; other actions need no option. A repeated request with the same
    /// option returns the recorded resolution without running `apply`; another
    /// option, or an expired action, is refused. Nothing changes on a refusal or
    /// when `apply` fails.
    pub fn resolve_with<F>(
        &mut self,
        recipient: &str,
        message_id: &str,
        action_id: &str,
        option_id: Option<&str>,
        apply: F,
    ) -> (r: Result<ActionResolution, InboxError>) where
        F: FnOnce(&InboxMessage, &MessageAction, &str) -> Result<EffectReceipt, InboxError>,

        requires
            forall|m: &InboxMessage, a: &MessageAction, o: &str| call_requires(apply, (m, a, o)),
        ensures
            match resolve_plan(old(self)@, recipient@, message_id@, action_id@, opt_str(option_id)) {
                ResolvePlan::Refuse(e) => r == Err::<ActionResolution, InboxError>(e) && final(self)@ == old(self)@,
                ResolvePlan::Replay(res) => r matches Ok(x) && x@ == res && final(self)@ == old(self)@,
                ResolvePlan::Resolve(i, a, effect) => r matches Ok(x) && x@ == (ResolutionView {
                    action_id: action_id@,
                    option_id: None,
                    effect,
                }) && final(self)@ == after_resolution(old(self)@, i, a, x@),
                ResolvePlan::Apply(i, a) => exists|out: Result<EffectReceipt, InboxError>|
                    #![trigger call_ensures(apply, (&old(self).message_at(i), &old(self).action_at(i, a), option_id->Some_0), out)]
                    call_ensures(
                        apply,
                        (&old(self).message_at(i), &old(self).action_at(i, a), option_id->Some_0),
                        out,
                    ) && match out {
                        Err(e) => r == Err::<ActionResolution, InboxError>(e) && final(self)@ == old(self)@,
                        Ok(receipt) => r matches Ok(x) && x@ == (ResolutionView {
                            action_id: action_id@,
                            option_id: Some(option_id->Some_0@),
                            effect: EffectView::Domain(receipt@),
                        }) && final(self)@ == after_resolution(old(self)@, i, a, x@),
                    },
            },
    {
        let ghost before = self@;
        let i = match self.find_live(recipient, message_id) {
            None => {
                return Err(InboxError::Unavailable);
            },
            Some(i) => i,
        };
        assert(before[i as int] == self.deliveries@[i as int]@);
        match find_resolution(&self.deliveries[i].resolutions, action_id) {
            Some(ri) => {
                let res = &self.deliveries[i].resolutions[ri];
                match &res.effect {
                    ResolutionEffect::Expired { .. } => {
                        return Err(InboxError::Expired);
                    },
                    _ => {},
                }
                if same_option(&res.option_id, option_id) {
                    return Ok(copy_resolution(res));
                } else {
                    return Err(InboxError::AlreadyResolved);
                }
            },
            None => {},
        }
        let ai = match find_action(&self.deliveries[i].message.actions, action_id) {
            None => {
                return Err(InboxError::Unavailable);
            },
            Some(ai) => ai,
        };
        if self.deliveries[i].message.actions[ai].resolved {
            return Err(InboxError::AlreadyResolved);
        }
        let effect = match &self.deliveries[i].message.actions[ai].action_type {
            ActionType::ChooseOption { options } => {
                let selected = match option_id {
                    Some(sel) => {
                        if !option_offered(options, sel) {
                            return Err(InboxError::InvalidOption);
                        }
                        sel
                    },
                    None => {
                        return Err(InboxError::InvalidOption);
                    },
                };
                match apply(&self.deliveries[i].message, &self.deliveries[i].message.actions[ai], selected) {
                    Ok(receipt) => ResolutionEffect::Domain(receipt),
                    Err(e) => {
                        return Err(e);
                    },
                }
            },
            ActionType::Acknowledge => {
                if option_id.is_some() {
                    return Err(InboxError::InvalidOption);
                }
                ResolutionEffect::Acknowledged
            },
            ActionType::Dismiss => {
                if option_id.is_some() {
                    return Err(InboxError::InvalidOption);
                }
                ResolutionEffect::Dismissed
            },
            ActionType::NavigateTo { route } => {
                if option_id.is_some() {
                    return Err(InboxError::InvalidOption);
                }
                ResolutionEffect::NavigateTo { route: route.clone() }
            },
        };
        let resolution = ActionResolution {
            action_id: String::from_str(action_id),
            option_id: match option_id {
                Some(o) => Some(String::from_str(o)),
                None => None,
            },
            effect,
        };
        self.record_resolution(i, ai, copy_resolution(&resolution));
        Ok(resolution)
    }

    /// Mark action `a` of delivery `i` resolved and record `res`.
    fn record_resolution(&mut self, i: usize, a: usize, res: ActionResolution)
        requires
            i < old(self)@.len(),
            a < old(self)@[i as int].message.actions.len(),
        ensures
            final(self)@ == after_resolution(old(self)@, i as int, a as int, res@),
    {
        let ghost before = self@;
        let ghost rv = res@;
        assert(before[i as int] == self.deliveries@[i as int]@);
        self.deliveries[i].message.actions[a].resolved = true;
        insert_into(&mut self.deliveries[i].resolutions, res);
        proof {
            let d = before[i as int];
            let nd = self.deliveries@[i as int]@;
            assert(nd.message.actions =~= d.message.actions.update(
                a as int,
                ActionView { resolved: true, ..d.message.actions[a as int] },
            ));
            assert forall|j: int| 0 <= j < before.len() && j != i implies (#[trigger] self@[j]) == before[j] by {
                assert(self@[j] == self.deliveries@[j]@);
            }
            assert(self@ =~= after_resolution(before, i as int, a as int, rv));
        }
    }

    /// Expire an open action of `recipient`'s message on `on`, with `reason`.
    /// Returns whether it expired; an action already resolved is left as it is.
    pub fn expire_action(
        &mut self,
        recipient: &str,
        message_id: &str,
        action_id: &str,
        on: Date,
        reason: &str,
    ) -> (r: Result<bool, InboxError>)
        ensures
            match live_index(old(self)@, recipient@, message_id@) {
                None => r == Err::<bool, InboxError>(InboxError::Unavailable) && final(self)@ == old(self)@,
                Some(i) => match action_index(old(self)@[i].message.actions, action_id@) {
                    None => r == Err::<bool, InboxError>(InboxError::Unavailable) && final(self)@ == old(self)@,
                    Some(a) => if old(self)@[i].message.actions[a].resolved {
                        r == Ok::<bool, InboxError>(false) && final(self)@ == old(self)@
                    } else {
                        r == Ok::<bool, InboxError>(true) && final(self)@ == after_resolution(
                            old(self)@,
                            i,
                            a,
                            ResolutionView {
                                action_id: action_id@,
                                option_id: None,
                                effect: EffectView::Expired(on, reason@),
                            },
                        )
                    },
                },
            },
    {
        let i = match self.find_live(recipient, message_id) {
            None => {
                return Err(InboxError::Unavailable);
            },
            Some(i) => i,
        };
        assert(self@[i as int] == self.deliveries@[i as int]@);
        let ai = match find_action(&self.deliveries[i].message.actions, action_id) {
            None => {
                return Err(InboxError::Unavailable);
            },
            Some(ai) => ai,
        };
        if self.deliveries[i].message.actions[ai].resolved {
            return Ok(false);
        }
        let res = ActionResolution {
            action_id: String::from_str(action_id),
            option_id: None,
            effect: ResolutionEffect::Expired { on, reason: String::from_str(reason) },
        };
        self.record_resolution(i, ai, res);
        Ok(true)
    }

    /// Check the whole inbox: every delivery sound and no recipient holding two
    /// deliveries of one message ID.
    pub fn validate(&self) -> (r: Result<(), InboxError>)
        ensures
            r is Ok <==> store_valid(self@),
            r is Err ==> r == Err::<(), InboxError>(InboxError::InvalidMessage),
    {
        let ghost ds = self@;
        let mut i: usize = 0;
        while i < self.deliveries.len()
            invariant
                i <= self.deliveries@.len(),
                ds == self@,
                ds == self.deliveries@.map_values(|d: Delivery| d@),
                forall|a: int| 0 <= a < i ==> delivery_valid(#[trigger] ds[a]),
                forall|a: int, b: int| 0 <= a < b < i ==> !same_key(#[trigger] ds[a], #[trigger] ds[b]),
            decreases self.deliveries@.len() - i,
        {
            if !delivery_ok(&self.deliveries[i]) {
                assert(!delivery_valid(ds[i as int]));
                return Err(InboxError::InvalidMessage);
            }
            let mut j: usize = 0;
            while j < i
                invariant
                    j <= i < self.deliveries@.len(),
                    ds == self.deliveries@.map_values(|d: Delivery| d@),
                    forall|a: int| 0 <= a < j ==> !same_key(#[trigger] ds[a], ds[i as int]),
                decreases i - j,
            {
                if self.deliveries[j].recipient_manager_id == self.deliveries[i].recipient_manager_id
                    && self.deliveries[j].message.id == self.deliveries[i].message.id {
                    assert(same_key(ds[j as int], ds[i as int]));
                    return Err(InboxError::InvalidMessage);
                }
                j = j + 1;
            }
            i = i + 1;
        }
        Ok(())
    }

    /// Replace `recipient`'s live copy of a message by a newer version with the
    /// same ID (see [`replacement_allowed`]); the dropped actions are kept with
    /// their resolutions. Refused with `InvalidMessage` for an invalid message or
    /// a disallowed replacement, `Unavailable` without a live copy; a refusal
    /// changes nothing.
    pub fn replace_domain_message(&mut self, recipient: &str, message: InboxMessage) -> (r: Result<(), InboxError>)
        ensures
            !message_valid(message@) ==> r == Err::<(), InboxError>(InboxError::InvalidMessage) && final(self)@
                == old(self)@,
            message_valid(message@) ==> match live_index(old(self)@, recipient@, message@.id) {
                None => r == Err::<(), InboxError>(InboxError::Unavailable) && final(self)@ == old(self)@,
                Some(i) => if replacement_allowed(old(self)@[i], message@) {
                    r == Ok::<(), InboxError>(()) && final(self)@ == old(self)@.update(
                        i,
                        replaced_delivery(old(self)@[i], message@),
                    )
                } else {
                    r == Err::<(), InboxError>(InboxError::InvalidMessage) && final(self)@ == old(self)@
                },
            },
    {
        validate_message(&message)?;
        let i = match self.find_live(recipient, message.id.as_str()) {
            Some(i) => i,
            None => return Err(InboxError::Unavailable),
        };
        let ghost ds = self@;
        let ghost d = ds[i as int];
        let ghost m = message@;
        let ghost dropped = dropped_actions(d.message.actions, m.actions);
        let mut kept: Vec<MessageAction> = Vec::new();
        let mut k: usize = 0;
        while k < self.deliveries[i].message.actions.len()
            invariant
                i < self.deliveries@.len(),
                self@ == ds,
                ds == old(self)@,
                live_index(old(self)@, recipient@, message@.id) == Some(i as int),
                d == ds[i as int],
                m == message@,
                dropped == dropped_actions(d.message.actions, m.actions),
                k <= d.message.actions.len(),
                action_views(kept@) == dropped_actions(d.message.actions.take(k as int), m.actions),
            decreases d.message.actions.len() - k,
        {
            let action = &self.deliveries[i].message.actions[k];
            proof {
                assert(d.message.actions.take(k as int + 1).drop_last() =~= d.message.actions.take(k as int));
                assert(d.message.actions.take(k as int + 1).last() == action@);
            }
            match find_action(&message.actions, action.id.as_str()) {
                Some(_) => {},
                None => {
                    let ghost before = kept@;
                    kept.push(copy_action(action));
                    assert(action_views(kept@) =~= action_views(before).push(action@));
                },
            }
            k = k + 1;
        }
        proof {
            assert(d.message.actions.take(d.message.actions.len() as int) =~= d.message.actions);
        }
        let mut k: usize = 0;
        while k < kept.len()
            invariant
                i < self.deliveries@.len(),
                self@ == ds,
                ds == old(self)@,
                live_index(old(self)@, recipient@, message@.id) == Some(i as int),
                d == ds[i as int],
                m == message@,
                dropped == dropped_actions(d.message.actions, m.actions),
                action_views(kept@) == dropped,
                k <= kept@.len(),
                forall|j: int|
                    0 <= j < k ==> (#[trigger] dropped[j]).resolved && resolution_for(d.resolutions, dropped[j].id) is Some,
            decreases kept@.len() - k,
        {
            assert(dropped[k as int] == kept@[k as int]@);
            if !kept[k].resolved || find_resolution(&self.deliveries[i].resolutions, kept[k].id.as_str()).is_none() {
                return Err(InboxError::InvalidMessage);
            }
            k = k + 1;
        }
        let mut k: usize = 0;
        while k < message.actions.len()
            invariant
                i < self.deliveries@.len(),
                self@ == ds,
                ds == old(self)@,
                live_index(old(self)@, recipient@, message@.id) == Some(i as int),
                d == ds[i as int],
                m == message@,
                k <= m.actions.len(),
                forall|j: int| 0 <= j < k ==> !has_action(d.removed_actions, (#[trigger] m.actions[j]).id),
            decreases m.actions.len() - k,
        {
            assert(m.actions[k as int] == message.actions@[k as int]@);
            if find_action(&self.deliveries[i].removed_actions, message.actions[k].id.as_str()).is_some() {
                return Err(InboxError::InvalidMessage);
            }
            k = k + 1;
        }
        let mut archive = copy_actions(&self.deliveries[i].removed_actions);
        let mut k: usize = 0;
        while k < kept.len()
            invariant
                action_views(kept@) == dropped,
                k <= kept@.len(),
                action_views(archive@) == archived(d.removed_actions, dropped.take(k as int)),
            decreases kept@.len() - k,
        {
            let ghost before = action_views(archive@);
            proof {
                assert(dropped.take(k as int + 1).drop_last() =~= dropped.take(k as int));
                assert(dropped.take(k as int + 1).last() == kept@[k as int]@);
            }
            match find_action(&archive, kept[k].id.as_str()) {
                Some(a) => {
                    archive.set(a, copy_action(&kept[k]));
                    assert(action_views(archive@) =~= before.update(a as int, kept@[k as int]@));
                },
                None => {
                    archive.push(copy_action(&kept[k]));
                    assert(action_views(archive@) =~= before.push(kept@[k as int]@));
                },
            }
            k = k + 1;
        }
        proof {
            assert(dropped.take(dropped.len() as int) =~= dropped);
        }
        self.deliveries[i].removed_actions = archive;
        self.deliveries[i].message = message;
        proof {
            assert(self@ =~= ds.update(i as int, replaced_delivery(d, m)));
        }
        Ok(())
    }

    /// Every recipient with at least one delivery, each once, in text order.
    pub fn recipients(&self) -> (r: Vec<String>)
        ensures
            forall|k: int| 0 <= k < r@.len() ==> has_recipient(self@, #[trigger] r@[k]@),
            forall|i: int| 0 <= i < self@.len() ==> names_hold(r@, #[trigger] self@[i].recipient),
            forall|k: int, l: int| 0 <= k < l < r@.len() ==> (#[trigger] r@[k])@ != (#[trigger] r@[l])@,
            vstd::relations::sorted_by(text_views(r@), text_order()),
    {
        let ghost ds = self@;
        let mut out: Vec<String> = Vec::new();
        let mut i: usize = 0;
        while i < self.deliveries.len()
            invariant
                i <= self.deliveries@.len(),
                ds == self@,
                ds == self.deliveries@.map_values(|d: Delivery| d@),
                forall|k: int| 0 <= k < out@.len() ==> has_recipient(ds, #[trigger] out@[k]@),
                forall|a: int| 0 <= a < i ==> names_hold(out@, #[trigger] ds[a].recipient),
                forall|k: int, l: int| 0 <= k < l < out@.len() ==> (#[trigger] out@[k])@ != (#[trigger] out@[l])@,
            decreases self.deliveries@.len() - i,
        {
            let name = &self.deliveries[i].recipient_manager_id;
            assert(ds[i as int].recipient == name@);
            let mut seen = false;
            let mut k: usize = 0;
            while k < out.len()
                invariant
                    k <= out@.len(),
                    !seen ==> forall|b: int| 0 <= b < k ==> (#[trigger] out@[b])@ != name@,
                    seen ==> names_hold(out@, name@),
                decreases out@.len() - k,
            {
                if out[k] == *name {
                    seen = true;
                }
                k = k + 1;
            }
            if !seen {
                let ghost prev = out@;
                out.push(name.clone());
                assert(out@[prev.len() as int]@ == name@);
                assert forall|a: int| 0 <= a <= i implies names_hold(out@, #[trigger] ds[a].recipient) by {
                    if a < i {
                        let k0 = choose|k: int| 0 <= k < prev.len() && (#[trigger] prev[k])@ == ds[a].recipient;
                        assert(out@[k0] == prev[k0]);
                    } else {
                        assert(out@[prev.len() as int]@ == ds[a].recipient);
                    }
                }
                assert forall|k: int| 0 <= k < out@.len() implies has_recipient(ds, #[trigger] out@[k]@) by {
                    if k < prev.len() {
                        assert(out@[k] == prev[k]);
                    } else {
                        assert(ds[i as int].recipient == out@[k]@);
                    }
                }
            }
            i = i + 1;
        }
        let sorted = sort_texts(&out);
        proof {
            lemma_text_order_total();
            let v = text_views(out@);
            let w = text_views(sorted@);
            v.lemma_sort_by_ensures(text_order());
            assert(v.no_duplicates()) by {
                assert forall|k: int, l: int| 0 <= k < v.len() && 0 <= l < v.len() && k != l implies v[k] != v[l] by {
                    if k < l {
                        assert(out@[k]@ != out@[l]@);
                    } else {
                        assert(out@[l]@ != out@[k]@);
                    }
                }
            }
            v.lemma_multiset_has_no_duplicates();
            assert forall|x: Seq<char>| w.to_multiset().count(x) <= 1 by {
                assert(w.to_multiset() =~= v.to_multiset());
            }
            w.lemma_multiset_has_no_duplicates_conv();
            assert forall|k: int, l: int| 0 <= k < l < sorted@.len() implies (#[trigger] sorted@[k])@ != (
            #[trigger] sorted@[l])@ by {
                assert(w[k] == sorted@[k]@ && w[l] == sorted@[l]@);
            }
            assert forall|k: int| 0 <= k < sorted@.len() implies has_recipient(ds, #[trigger] sorted@[k]@) by {
                assert(w[k] == sorted@[k]@);
                assert(w.contains(w[k]));
                assert(v.contains(w[k]));
                let j = choose|j: int| 0 <= j < v.len() && v[j] == w[k];
                assert(has_recipient(ds, out@[j]@));
            }
            assert forall|a: int| 0 <= a < ds.len() implies names_hold(sorted@, #[trigger] ds[a].recipient) by {
                let name = ds[a].recipient;
                let j = choose|j: int| 0 <= j < out@.len() && (#[trigger] out@[j])@ == name;
                assert(v[j] == name);
                vstd::seq_lib::to_multiset_contains(v, name);
                assert(w.to_multiset() =~= v.to_multiset());
                vstd::seq_lib::to_multiset_contains(w, name);
                let k = choose|k: int| 0 <= k < w.len() && w[k] == name;
                assert(sorted@[k]@ == name);
            }
        }
        sorted
    }
}

proof fn lemma_exists_first_resolution(rs: Seq<ResolutionView>, id: Seq<char>, j: int)
    requires
        0 <= j < rs.len(),
        rs[j].action_id == id,
    ensures
        exists|i: int| first_resolution_at(rs, id, i),
    decreases j,
{
    if exists|k: int| 0 <= k < j && (#[trigger] rs[k]).action_id == id {
        let k = choose|k: int| 0 <= k < j && (#[trigger] rs[k]).action_id == id;
        lemma_exists_first_resolution(rs, id, k);
    } else {
        assert(first_resolution_at(rs, id, j));
    }
}

proof fn lemma_exists_first_action(actions: Seq<ActionView>, id: Seq<char>, j: int)
    requires
        0 <= j < actions.len(),
        actions[j].id == id,
    ensures
        exists|i: int| first_action_view_at(actions, id, i),
    decreases j,
{
    if exists|k: int| 0 <= k < j && (#[trigger] actions[k]).id == id {
        let k = choose|k: int| 0 <= k < j && (#[trigger] actions[k]).id == id;
        lemma_exists_first_action(actions, id, k);
    } else {
        assert(first_action_view_at(actions, id, j));
    }
}

/// Looking an action up by ID sees only the IDs.
proof fn lemma_action_index_by_ids(a: Seq<ActionView>, b: Seq<ActionView>, id: Seq<char>)
    requires
        a.len() == b.len(),
        forall|k: int| 0 <= k < a.len() ==> (#[trigger] a[k]).id == b[k].id,
    ensures
        action_index(a, id) == action_index(b, id),
{
    assert forall|k: int| first_action_view_at(a, id, k) <==> first_action_view_at(b, id, k) by {
        if first_action_view_at(a, id, k) {
            assert forall|j: int| 0 <= j < k implies (#[trigger] b[j]).id != id by {
                assert(a[j].id == b[j].id);
            }
        }
        if first_action_view_at(b, id, k) {
            assert forall|j: int| 0 <= j < k implies (#[trigger] a[j]).id != id by {
                assert(a[j].id == b[j].id);
            }
        }
    }
    if exists|k: int| first_action_view_at(a, id, k) {
        let k = choose|k: int| first_action_view_at(a, id, k);
        assert(first_action_view_at(b, id, k));
        let kb = choose|k: int| first_action_view_at(b, id, k);
        lemma_first_action_view_unique(b, id, k, kb);
    }
}

/// A later resolution does not hide an earlier one.
proof fn lemma_resolution_for_push(rs: Seq<ResolutionView>, res: ResolutionView, id: Seq<char>)
    requires
        resolution_for(rs, id) is Some,
    ensures
        resolution_for(rs.push(res), id) == resolution_for(rs, id),
{
    let k = choose|i: int| first_resolution_at(rs, id, i);
    assert(first_resolution_at(rs.push(res), id, k));
    let k2 = choose|i: int| first_resolution_at(rs.push(res), id, i);
    lemma_first_resolution_unique(rs.push(res), id, k, k2);
}

/// Recording the resolution of an open action, with an effect that fits the
/// action, keeps the inbox sound.
pub proof fn lemma_recording_keeps_store_valid(ds: Seq<DeliveryView>, i: int, a: int, res: ResolutionView)
    requires
        store_valid(ds),
        0 <= i < ds.len(),
        action_index(ds[i].message.actions, res.action_id) == Some(a),
        !ds[i].message.actions[a].resolved,
        resolution_for(ds[i].resolutions, res.action_id) is None,
        effect_fits(ds[i].message.actions[a].action_type, res.effect, res.option_id),
    ensures
        store_valid(after_resolution(ds, i, a, res)),
{
    let d = ds[i];
    let ds2 = after_resolution(ds, i, a, res);
    let d2 = ds2[i];
    let acts = d.message.actions;
    let acts2 = d2.message.actions;
    assert(first_action_view_at(acts, res.action_id, a)) by {
        let c = choose|k: int| first_action_view_at(acts, res.action_id, k);
    }
    assert(!exists|k: int| first_resolution_at(d.resolutions, res.action_id, k));
    assert forall|k: int| 0 <= k < d.resolutions.len() implies (#[trigger] d.resolutions[k]).action_id
        != res.action_id by {
        if d.resolutions[k].action_id == res.action_id {
            lemma_exists_first_resolution(d.resolutions, res.action_id, k);
        }
    }
    assert(d2.resolutions == d.resolutions.push(res)) by {
        assert(!exists|k: int| first_resolution_at(d.resolutions, res.action_id, k));
    }
    assert forall|id: Seq<char>| action_index(acts2, id) == action_index(acts, id) by {
        lemma_action_index_by_ids(acts2, acts, id);
    }
    assert(message_valid(d2.message)) by {
        assert forall|k: int| 0 <= k < acts2.len() implies action_valid(#[trigger] acts2[k]) by {
            assert(action_valid(acts[k]));
        }
        assert forall|k: int, l: int| 0 <= k < l < acts2.len() implies (#[trigger] acts2[k]).id != (
        #[trigger] acts2[l]).id by {
            assert(acts[k].id != acts[l].id);
        }
    }
    assert forall|k: int| 0 <= k < d2.removed_actions.len() implies removed_valid(
        d2,
        #[trigger] d2.removed_actions[k],
    ) by {
        let r = d2.removed_actions[k];
        assert(removed_valid(d, d.removed_actions[k]));
        lemma_resolution_for_push(d.resolutions, res, r.id);
    }
    assert forall|k: int| 0 <= k < d2.resolutions.len() implies resolution_valid(
        d2,
        #[trigger] d2.resolutions[k],
    ) by {
        let r = d2.resolutions[k];
        if k < d.resolutions.len() {
            assert(resolution_valid(d, d.resolutions[k]));
            let idx = action_index(acts, r.action_id);
            assert(action_index(acts2, r.action_id) == idx);
            if idx is Some {
                let j = idx->Some_0;
                assert(first_action_view_at(acts, r.action_id, j)) by {
                    let c = choose|x: int| first_action_view_at(acts, r.action_id, x);
                }
            }
        } else {
            assert(r == res);
            assert(action_index(acts2, res.action_id) == Some(a));
        }
    }
    assert forall|k: int, l: int| 0 <= k < l < d2.resolutions.len() implies (#[trigger] d2.resolutions[k]).action_id
        != (#[trigger] d2.resolutions[l]).action_id by {
        if l < d.resolutions.len() {
            assert(d.resolutions[k].action_id != d.resolutions[l].action_id);
        }
    }
    assert(delivery_valid(d2));
    assert forall|j: int| 0 <= j < ds2.len() implies delivery_valid(#[trigger] ds2[j]) by {
        if j != i {
            assert(delivery_valid(ds[j]));
        }
    }
    assert forall|j: int, k: int| 0 <= j < k < ds2.len() implies !same_key(#[trigger] ds2[j], #[trigger] ds2[k]) by {
        assert(!same_key(ds[j], ds[k]));
    }
}

/// A resolution that `resolve_with` records keeps the inbox sound: the effect
/// decided by the action's kind, or any domain receipt for the chosen option.
pub proof fn lemma_resolve_keeps_store_valid(
    ds: Seq<DeliveryView>,
    recipient: Seq<char>,
    message_id: Seq<char>,
    action_id: Seq<char>,
    option_id: Option<Seq<char>>,
    receipt: ReceiptView,
)
    requires
        store_valid(ds),
    ensures
        resolve_plan(ds, recipient, message_id, action_id, option_id) matches ResolvePlan::Resolve(i, a, effect)
            ==> store_valid(
            after_resolution(ds, i, a, ResolutionView { action_id, option_id: None, effect }),
        ),
        resolve_plan(ds, recipient, message_id, action_id, option_id) matches ResolvePlan::Apply(i, a)
            ==> store_valid(
            after_resolution(
                ds,
                i,
                a,
                ResolutionView { action_id, option_id, effect: EffectView::Domain(receipt) },
            ),
        ),
{
    match resolve_plan(ds, recipient, message_id, action_id, option_id) {
        ResolvePlan::Resolve(i, a, effect) => {
            lemma_recording_keeps_store_valid(ds, i, a, ResolutionView { action_id, option_id: None, effect });
        },
        ResolvePlan::Apply(i, a) => {
            lemma_recording_keeps_store_valid(
                ds,
                i,
                a,
                ResolutionView { action_id, option_id, effect: EffectView::Domain(receipt) },
            );
        },
        _ => {},
    }
}

/// Expiring an open action keeps the inbox sound.
pub proof fn lemma_expire_keeps_store_valid(
    ds: Seq<DeliveryView>,
    recipient: Seq<char>,
    message_id: Seq<char>,
    action_id: Seq<char>,
    on: Date,
    reason: Seq<char>,
)
    requires
        store_valid(ds),
    ensures
        live_index(ds, recipient, message_id) matches Some(i) ==> (action_index(ds[i].message.actions, action_id)
            matches Some(a) ==> (!ds[i].message.actions[a].resolved ==> store_valid(
            after_resolution(
                ds,
                i,
                a,
                ResolutionView { action_id, option_id: None, effect: EffectView::Expired(on, reason) },
            ),
        ))),
{
    if live_index(ds, recipient, message_id) is Some {
        let i = live_index(ds, recipient, message_id)->Some_0;
        assert(first_live_at(ds, recipient, message_id, i));
        if action_index(ds[i].message.actions, action_id) is Some {
            let a = action_index(ds[i].message.actions, action_id)->Some_0;
            let acts = ds[i].message.actions;
            assert(first_action_view_at(acts, action_id, a));
            if !acts[a].resolved {
                let d = ds[i];
                assert(delivery_valid(d));
                if resolution_for(d.resolutions, action_id) is Some {
                    let k = choose|k: int| first_resolution_at(d.resolutions, action_id, k);
                    assert(resolution_valid(d, d.resolutions[k]));
                    assert(named_action(d, action_id) == Some(acts[a]));
                }
                lemma_recording_keeps_store_valid(
                    ds,
                    i,
                    a,
                    ResolutionView { action_id, option_id: None, effect: EffectView::Expired(on, reason) },
                );
            }
        }
    }
}

/// A fresh delivery, as `deliver` appends it.
pub open spec fn fresh_delivery(recipient: Seq<char>, message: MessageView) -> DeliveryView {
    DeliveryView {
        recipient,
        message,
        deleted: false,
        resolutions: Seq::empty(),
        removed_actions: Seq::empty(),
    }
}

/// Delivering a valid message to a nonblank recipient who does not have it yet
/// keeps the inbox sound; delivering it again finds it already there.
pub proof fn lemma_deliver_keeps_store_valid(ds: Seq<DeliveryView>, recipient: Seq<char>, message: MessageView)
    requires
        store_valid(ds),
        !is_blank_spec(recipient),
        message_valid(message),
        !exists|i: int| 0 <= i < ds.len() && (#[trigger] ds[i]).recipient == recipient && ds[i].message.id == message.id,
    ensures
        store_valid(ds.push(fresh_delivery(recipient, message))),
        exists|i: int|
            0 <= i < ds.push(fresh_delivery(recipient, message)).len() && (#[trigger] ds.push(
                fresh_delivery(recipient, message),
            )[i]).recipient == recipient && ds.push(fresh_delivery(recipient, message))[i].message.id
                == message.id,
{
    let ds2 = ds.push(fresh_delivery(recipient, message));
    assert(delivery_valid(ds2[ds.len() as int]));
    assert forall|j: int| 0 <= j < ds2.len() implies delivery_valid(#[trigger] ds2[j]) by {
        if j < ds.len() {
            assert(delivery_valid(ds[j]));
        }
    }
    assert forall|j: int, k: int| 0 <= j < k < ds2.len() implies !same_key(#[trigger] ds2[j], #[trigger] ds2[k]) by {
        if k < ds.len() {
            assert(!same_key(ds[j], ds[k]));
        } else {
            assert(ds2[j] == ds[j]);
        }
    }
    assert(ds2[ds.len() as int].recipient == recipient);
}

/// Two deliveries alike but for the read and deleted flags.
pub open spec fn same_but_flags(a: DeliveryView, b: DeliveryView) -> bool {
    &&& a.recipient == b.recipient
    &&& a.resolutions == b.resolutions
    &&& a.removed_actions == b.removed_actions
    &&& a.message == (MessageView { read: a.message.read, ..b.message })
}

proof fn lemma_flags_keep_store_valid(ds: Seq<DeliveryView>, ds2: Seq<DeliveryView>)
    requires
        store_valid(ds),
        ds.len() == ds2.len(),
        forall|i: int| 0 <= i < ds.len() ==> same_but_flags(#[trigger] ds2[i], ds[i]),
    ensures
        store_valid(ds2),
{
    assert forall|j: int| 0 <= j < ds2.len() implies delivery_valid(#[trigger] ds2[j]) by {
        let d = ds[j];
        let d2 = ds2[j];
        assert(same_but_flags(d2, d));
        assert(delivery_valid(d));
        assert forall|k: int| 0 <= k < d2.removed_actions.len() implies removed_valid(d2, #[trigger] d2.removed_actions[k]) by {
            assert(removed_valid(d, d.removed_actions[k]));
        }
        assert forall|k: int| 0 <= k < d2.resolutions.len() implies resolution_valid(d2, #[trigger] d2.resolutions[k]) by {
            assert(resolution_valid(d, d.resolutions[k]));
            assert(named_action(d2, d2.resolutions[k].action_id) == named_action(d, d.resolutions[k].action_id));
        }
    }
    assert forall|j: int, k: int| 0 <= j < k < ds2.len() implies !same_key(#[trigger] ds2[j], #[trigger] ds2[k]) by {
        assert(!same_key(ds[j], ds[k]));
        assert(same_but_flags(ds2[j], ds[j]));
        assert(same_but_flags(ds2[k], ds[k]));
    }
}

/// Reading, deleting and cleaning up keep the inbox sound.
pub proof fn lemma_housekeeping_keeps_store_valid(
    ds: Seq<DeliveryView>,
    i: int,
    recipient: Seq<char>,
    today: Date,
)
    requires
        store_valid(ds),
        0 <= i < ds.len(),
    ensures
        store_valid(ds.update(i, read_delivery(ds[i]))),
        store_valid(ds.update(i, deleted_delivery(ds[i]))),
        store_valid(all_read(ds, recipient)),
        store_valid(cleared(ds, recipient, today)),
{
    let r1 = ds.update(i, read_delivery(ds[i]));
    assert forall|j: int| 0 <= j < ds.len() implies same_but_flags(#[trigger] r1[j], ds[j]) by {
        assert(ds[j].message == (MessageView { read: ds[j].message.read, ..ds[j].message }));
    }
    lemma_flags_keep_store_valid(ds, r1);
    let r2 = ds.update(i, deleted_delivery(ds[i]));
    assert forall|j: int| 0 <= j < ds.len() implies same_but_flags(#[trigger] r2[j], ds[j]) by {
        assert(ds[j].message == (MessageView { read: ds[j].message.read, ..ds[j].message }));
    }
    lemma_flags_keep_store_valid(ds, r2);
    let r3 = all_read(ds, recipient);
    assert forall|j: int| 0 <= j < ds.len() implies same_but_flags(#[trigger] r3[j], ds[j]) by {
        assert(ds[j].message == (MessageView { read: ds[j].message.read, ..ds[j].message }));
    }
    lemma_flags_keep_store_valid(ds, r3);
    let r4 = cleared(ds, recipient, today);
    assert forall|j: int| 0 <= j < ds.len() implies same_but_flags(#[trigger] r4[j], ds[j]) by {
        assert(ds[j].message == (MessageView { read: ds[j].message.read, ..ds[j].message }));
    }
    lemma_flags_keep_store_valid(ds, r4);
}

/// Whether `res` is what `resolve_with` records under `plan`.
pub open spec fn recorded_by(
    plan: ResolvePlan,
    action_id: Seq<char>,
    option_id: Option<Seq<char>>,
    res: ResolutionView,
) -> bool {
    match plan {
        ResolvePlan::Resolve(_, _, effect) => res == (ResolutionView { action_id, option_id: None, effect }),
        ResolvePlan::Apply(_, _) => res.action_id == action_id && res.option_id == option_id
            && res.effect is Domain,
        _ => false,
    }
}

/// The delivery and action a plan resolves.
pub open spec fn plan_target(plan: ResolvePlan) -> (int, int) {
    match plan {
        ResolvePlan::Resolve(i, a, _) => (i, a),
        ResolvePlan::Apply(i, a) => (i, a),
        _ => (0, 0),
    }
}

proof fn lemma_live_index_kept(ds: Seq<DeliveryView>, ds2: Seq<DeliveryView>, recipient: Seq<char>, message_id: Seq<char>)
    requires
        ds.len() == ds2.len(),
        forall|j: int| 0 <= j < ds.len() ==> is_live(#[trigger] ds2[j], recipient, message_id) == is_live(ds[j], recipient, message_id),
    ensures
        live_index(ds2, recipient, message_id) == live_index(ds, recipient, message_id),
{
    assert forall|k: int| first_live_at(ds, recipient, message_id, k) <==> first_live_at(ds2, recipient, message_id, k) by {
        if first_live_at(ds, recipient, message_id, k) {
            assert forall|j: int| 0 <= j < k implies !is_live(#[trigger] ds2[j], recipient, message_id) by {
                assert(!is_live(ds[j], recipient, message_id));
            }
        }
        if first_live_at(ds2, recipient, message_id, k) {
            assert forall|j: int| 0 <= j < k implies !is_live(#[trigger] ds[j], recipient, message_id) by {
                assert(!is_live(ds2[j], recipient, message_id));
            }
        }
    }
    if exists|k: int| first_live_at(ds, recipient, message_id, k) {
        let k = choose|k: int| first_live_at(ds, recipient, message_id, k);
        let k2 = choose|k: int| first_live_at(ds2, recipient, message_id, k);
        lemma_first_live_unique(ds2, recipient, message_id, k, k2);
    }
}

/// Resolution happens once. After an action resolves, asking again with the same
/// option replays the recorded resolution (without running any effect), and any
/// other option is refused as already resolved.
pub proof fn lemma_resolution_replays(
    ds: Seq<DeliveryView>,
    recipient: Seq<char>,
    message_id: Seq<char>,
    action_id: Seq<char>,
    option_id: Option<Seq<char>>,
    res: ResolutionView,
    other: Option<Seq<char>>,
)
    requires
        recorded_by(resolve_plan(ds, recipient, message_id, action_id, option_id), action_id, option_id, res),
    ensures
        ({
            let (i, a) = plan_target(resolve_plan(ds, recipient, message_id, action_id, option_id));
            let after = after_resolution(ds, i, a, res);
            &&& resolve_plan(after, recipient, message_id, action_id, option_id) == ResolvePlan::Replay(res)
            &&& other != option_id ==> resolve_plan(after, recipient, message_id, action_id, other)
                == ResolvePlan::Refuse(InboxError::AlreadyResolved)
        }),
{
    let plan = resolve_plan(ds, recipient, message_id, action_id, option_id);
    let (i, a) = plan_target(plan);
    let after = after_resolution(ds, i, a, res);
    assert(live_index(ds, recipient, message_id) == Some(i));
    lemma_live_index_kept(ds, after, recipient, message_id);
    let rs = ds[i].resolutions;
    assert(resolution_for(rs, action_id) is None);
    assert forall|k: int| 0 <= k < rs.len() implies (#[trigger] rs[k]).action_id != action_id by {
        if rs[k].action_id == action_id {
            lemma_exists_first_resolution(rs, action_id, k);
        }
    }
    assert(after[i].resolutions == rs.push(res));
    assert(first_resolution_at(rs.push(res), action_id, rs.len() as int));
    let c = choose|k: int| first_resolution_at(rs.push(res), action_id, k);
    lemma_first_resolution_unique(rs.push(res), action_id, c, rs.len() as int);
    assert(resolution_for(after[i].resolutions, action_id) == Some(res));
}

/// An expired action stays expired: any later request to resolve it is refused
/// as expired.
pub proof fn lemma_expired_stays_expired(
    ds: Seq<DeliveryView>,
    i: int,
    a: int,
    recipient: Seq<char>,
    message_id: Seq<char>,
    action_id: Seq<char>,
    on: Date,
    reason: Seq<char>,
    option_id: Option<Seq<char>>,
)
    requires
        live_index(ds, recipient, message_id) == Some(i),
        action_index(ds[i].message.actions, action_id) == Some(a),
        !ds[i].message.actions[a].resolved,
        resolution_for(ds[i].resolutions, action_id) is None,
    ensures
        resolve_plan(
            after_resolution(
                ds,
                i,
                a,
                ResolutionView { action_id, option_id: None, effect: EffectView::Expired(on, reason) },
            ),
            recipient,
            message_id,
            action_id,
            option_id,
        ) == ResolvePlan::Refuse(InboxError::Expired),
{
    let res = ResolutionView { action_id, option_id: None, effect: EffectView::Expired(on, reason) };
    let after = after_resolution(ds, i, a, res);
    let c0 = choose|k: int| first_live_at(ds, recipient, message_id, k);
    assert(first_live_at(ds, recipient, message_id, i));
    lemma_live_index_kept(ds, after, recipient, message_id);
    let rs = ds[i].resolutions;
    assert forall|k: int| 0 <= k < rs.len() implies (#[trigger] rs[k]).action_id != action_id by {
        if rs[k].action_id == action_id {
            lemma_exists_first_resolution(rs, action_id, k);
        }
    }
    assert(after[i].resolutions == rs.push(res));
    assert(first_resolution_at(rs.push(res), action_id, rs.len() as int));
    let c = choose|k: int| first_resolution_at(rs.push(res), action_id, k);
    lemma_first_resolution_unique(rs.push(res), action_id, c, rs.len() as int);
}

proof fn lemma_messages_of_agree(ds1: Seq<DeliveryView>, ds2: Seq<DeliveryView>, recipient: Seq<char>, with_deleted: bool)
    requires
        ds1.len() == ds2.len(),
        forall|i: int|
            0 <= i < ds1.len() ==> (#[trigger] ds1[i]).recipient == ds2[i].recipient && (ds1[i].recipient
                == recipient ==> ds1[i] == ds2[i]),
    ensures
        messages_of(ds1, recipient, with_deleted) == messages_of(ds2, recipient, with_deleted),
    decreases ds1.len(),
{
    if ds1.len() > 0 {
        lemma_messages_of_agree(ds1.drop_last(), ds2.drop_last(), recipient, with_deleted);
        assert(ds1.last() == ds1[ds1.len() - 1]);
    }
}

/// Inboxes are separate: delivering to one recipient, or reading, deleting or
/// cleaning up their messages, leaves every other recipient's messages (listed,
/// in history, or looked up by ID) as they were.
pub proof fn lemma_recipient_isolation(
    ds: Seq<DeliveryView>,
    owner: Seq<char>,
    other: Seq<char>,
    message: MessageView,
    i: int,
    today: Date,
    message_id: Seq<char>,
    with_deleted: bool,
)
    requires
        owner != other,
        0 <= i < ds.len(),
        ds[i].recipient == owner,
    ensures
        messages_of(ds.push(fresh_delivery(owner, message)), other, with_deleted) == messages_of(ds, other, with_deleted),
        messages_of(ds.update(i, read_delivery(ds[i])), other, with_deleted) == messages_of(ds, other, with_deleted),
        messages_of(ds.update(i, deleted_delivery(ds[i])), other, with_deleted) == messages_of(ds, other, with_deleted),
        messages_of(all_read(ds, owner), other, with_deleted) == messages_of(ds, other, with_deleted),
        messages_of(cleared(ds, owner, today), other, with_deleted) == messages_of(ds, other, with_deleted),
        live_index(ds.push(fresh_delivery(owner, message)), other, message_id) == live_index(ds, other, message_id),
        live_index(ds.update(i, read_delivery(ds[i])), other, message_id) == live_index(ds, other, message_id),
        live_index(ds.update(i, deleted_delivery(ds[i])), other, message_id) == live_index(ds, other, message_id),
        live_index(all_read(ds, owner), other, message_id) == live_index(ds, other, message_id),
        live_index(cleared(ds, owner, today), other, message_id) == live_index(ds, other, message_id),
{
    let pushed = ds.push(fresh_delivery(owner, message));
    assert(pushed.drop_last() =~= ds);
    assert(pushed.last() == fresh_delivery(owner, message));
    lemma_messages_of_agree(ds.update(i, read_delivery(ds[i])), ds, other, with_deleted);
    lemma_messages_of_agree(ds.update(i, deleted_delivery(ds[i])), ds, other, with_deleted);
    lemma_messages_of_agree(all_read(ds, owner), ds, other, with_deleted);
    lemma_messages_of_agree(cleared(ds, owner, today), ds, other, with_deleted);
    if exists|k: int| first_live_at(pushed, other, message_id, k) {
        let k = choose|k: int| first_live_at(pushed, other, message_id, k);
        assert(k < ds.len());
        assert(first_live_at(ds, other, message_id, k));
        let k2 = choose|k: int| first_live_at(ds, other, message_id, k);
        lemma_first_live_unique(ds, other, message_id, k, k2);
    }
    if exists|k: int| first_live_at(ds, other, message_id, k) {
        let k = choose|k: int| first_live_at(ds, other, message_id, k);
        assert(first_live_at(pushed, other, message_id, k));
        let k2 = choose|k: int| first_live_at(pushed, other, message_id, k);
        lemma_first_live_unique(pushed, other, message_id, k, k2);
    }
    lemma_live_index_kept(ds, ds.update(i, read_delivery(ds[i])), other, message_id);
    lemma_live_index_kept(ds, ds.update(i, deleted_delivery(ds[i])), other, message_id);
    lemma_live_index_kept(ds, all_read(ds, owner), other, message_id);
    lemma_live_index_kept(ds, cleared(ds, owner, today), other, message_id);
}

} // verus!
