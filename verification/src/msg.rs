//! What the pool is asked and what it answers.

use vstd::prelude::*;

use crate::error::{viewed, StdError, StdErrorView};
use crate::state::{opt_bytes, opt_text, Entry, EntryView, RoundStatus};
use crate::text::texts;

verus! {

/// What the chain says at a call.
#[derive(Debug, Clone, Copy, PartialEq, Eq)]
pub struct Env {
    /// Block time, in nanoseconds.
    pub time: u64,
    /// What the pool holds of its own denomination.
    pub balance: u128,
}

/// What the chain answered about one address or one token.
#[derive(Debug, PartialEq, Eq)]
pub struct Answer {
    /// The address or the token that was asked about.
    pub about: String,
    /// The valid address, or the token's owner.
    pub outcome: Result<String, StdError>,
}

pub struct AnswerView {
    pub about: Seq<char>,
    pub outcome: Result<Seq<char>, StdErrorView>,
}

impl View for Answer {
    type V = AnswerView;

    open spec fn view(&self) -> AnswerView {
        AnswerView {
            about: self.about@,
            outcome: viewed(self.outcome),
        }
    }
}

/// The answers in a list.
pub open spec fn answer_views(answers: Seq<Answer>) -> Seq<AnswerView> {
    answers.map_values(|a: Answer| a@)
}

/// The first answer about `about`, counting from `i`; an error that names
/// `about` if there is none.
pub open spec fn answer_from(answers: Seq<AnswerView>, about: Seq<char>, i: int) -> Result<
    Seq<char>,
    StdErrorView,
>
    decreases answers.len() - i,
{
    if i >= answers.len() {
        Err(StdErrorView::NotFound { kind: about })
    } else if answers[i].about == about {
        answers[i].outcome
    } else {
        answer_from(answers, about, i + 1)
    }
}

/// What the chain answered about `about`.
pub open spec fn answer_to(answers: Seq<AnswerView>, about: Seq<char>) -> Result<
    Seq<char>,
    StdErrorView,
> {
    answer_from(answers, about, 0)
}

/// What the chain answered about `about`.
pub fn find_answer(answers: &Vec<Answer>, about: &String) -> (outcome: Result<String, StdError>)
    ensures
        viewed(outcome) == answer_to(answer_views(answers@), about@),
{
    let ghost views: Seq<AnswerView> = answer_views(answers@);
    let mut i: usize = 0;
    while i < answers.len()
        invariant
            i <= answers@.len(),
            views == answer_views(answers@),
            answer_to(views, about@) == answer_from(views, about@, i as int),
        decreases answers@.len() - i,
    {
        let answer: &Answer = &answers[i];
        assert(views[i as int] == answer@);
        if answer.about == *about {
            return match &answer.outcome {
                Ok(s) => Ok(s.clone()),
                Err(e) => Err(e.clone()),
            };
        }
        i = i + 1;
    }
    Err(StdError::NotFound { kind: about.clone() })
}

#[derive(Debug)]
pub struct InstantiateMsg {
    pub admin: String,
    pub nft_contract: String,
    pub denom: String,
    pub treasury: String,
    pub treasury_bps: u64,
    pub payout_bps: Vec<u64>,
    pub caller_bps: u64,
    pub min_entries: u64,
    pub min_pot: u128,
    pub stale_after_secs: u64,
    /// Automation key. Omitted, the admin acts as operator too.
    pub operator: Option<String>,
    /// Round 1 is committed here, so entries can never arrive with no
    /// commitment covering them.
    pub first_seed_hash: Vec<u8>,
    pub first_close_time: u64,
}

pub struct InstantiateMsgView {
    pub admin: Seq<char>,
    pub nft_contract: Seq<char>,
    pub denom: Seq<char>,
    pub treasury: Seq<char>,
    pub treasury_bps: u64,
    pub payout_bps: Seq<u64>,
    pub caller_bps: u64,
    pub min_entries: u64,
    pub min_pot: u128,
    pub stale_after_secs: u64,
    pub operator: Option<Seq<char>>,
    pub first_seed_hash: Seq<u8>,
    pub first_close_time: u64,
}

impl View for InstantiateMsg {
    type V = InstantiateMsgView;

    open spec fn view(&self) -> InstantiateMsgView {
        InstantiateMsgView {
            admin: self.admin@,
            nft_contract: self.nft_contract@,
            denom: self.denom@,
            treasury: self.treasury@,
            treasury_bps: self.treasury_bps,
            payout_bps: self.payout_bps@,
            caller_bps: self.caller_bps,
            min_entries: self.min_entries,
            min_pot: self.min_pot,
            stale_after_secs: self.stale_after_secs,
            operator: opt_text(self.operator),
            first_seed_hash: self.first_seed_hash@,
            first_close_time: self.first_close_time,
        }
    }
}

/// One free entry: the wallet, how many tickets, and the hash of the
/// transaction that earned it. The hash is both the link to the reason and the
/// entropy: it exists before the ticket does, and the operator does not pick
/// it.
#[derive(Debug)]
pub struct FreeEntryItem {
    pub wallet: String,
    pub tickets: u32,
    pub tx_hash: String,
}

pub struct FreeEntryItemView {
    pub wallet: Seq<char>,
    pub tickets: u32,
    pub tx_hash: Seq<char>,
}

impl View for FreeEntryItem {
    type V = FreeEntryItemView;

    open spec fn view(&self) -> FreeEntryItemView {
        FreeEntryItemView { wallet: self.wallet@, tickets: self.tickets, tx_hash: self.tx_hash@ }
    }
}

/// The items of a batch.
pub open spec fn item_views(items: Seq<FreeEntryItem>) -> Seq<FreeEntryItemView> {
    items.map_values(|item: FreeEntryItem| item@)
}

#[allow(inconsistent_fields)]
#[derive(Debug)]
pub enum ExecuteMsg {
    /// From the NFT contract, inside the mint transaction. The pool's share
    /// arrives as a plain transfer in the same transaction; `amount` ties that
    /// money to this entry.
    RecordEntry { token_id: String, minter: String, entries: u32, amount: u128, entropy: Vec<u8> },
    /// Admin. Free entries earned off-chain. Refused once the current round
    /// has closed. They carry no money into the pot.
    RecordFreeEntries { entries: Vec<FreeEntryItem> },
    /// Operator or admin. Commits the next round. Meant to be called while the
    /// current round is still open; a round that ends up covering earlier
    /// entries is flagged.
    OpenRound { seed_hash: Vec<u8>, close_time: u64 },
    /// Anyone. Settles a closed round with its secret.
    ExecuteDraw { round_id: u64, secret: Vec<u8> },
    /// Anyone, once the reveal is overdue. Settles a closed round without its
    /// secret, by a result that was fixed when the round closed.
    SettleStale { round_id: u64 },
    /// Anyone, once the reveal is overdue and there is nothing to draw.
    /// Consumes nothing.
    RolloverRound { round_id: u64 },
    /// Admin: any field. Operator: only `min_entries`, `min_pot` and `paused`.
    /// Rounds that are open keep the terms they opened with.
    UpdateConfig {
        admin: Option<String>,
        operator: Option<String>,
        nft_contract: Option<String>,
        treasury: Option<String>,
        treasury_bps: Option<u64>,
        payout_bps: Option<Vec<u64>>,
        caller_bps: Option<u64>,
        min_entries: Option<u64>,
        min_pot: Option<u128>,
        stale_after_secs: Option<u64>,
        paused: Option<bool>,
    },
}

/// The fields of an update of the configuration.
#[derive(Debug)]
pub struct ConfigUpdate {
    pub admin: Option<String>,
    pub operator: Option<String>,
    pub nft_contract: Option<String>,
    pub treasury: Option<String>,
    pub treasury_bps: Option<u64>,
    pub payout_bps: Option<Vec<u64>>,
    pub caller_bps: Option<u64>,
    pub min_entries: Option<u64>,
    pub min_pot: Option<u128>,
    pub stale_after_secs: Option<u64>,
    pub paused: Option<bool>,
}

pub struct ConfigUpdateView {
    pub admin: Option<Seq<char>>,
    pub operator: Option<Seq<char>>,
    pub nft_contract: Option<Seq<char>>,
    pub treasury: Option<Seq<char>>,
    pub treasury_bps: Option<u64>,
    pub payout_bps: Option<Seq<u64>>,
    pub caller_bps: Option<u64>,
    pub min_entries: Option<u64>,
    pub min_pot: Option<u128>,
    pub stale_after_secs: Option<u64>,
    pub paused: Option<bool>,
}

/// The numbers in an optional list.
pub open spec fn opt_numbers(list: Option<Vec<u64>>) -> Option<Seq<u64>> {
    match list {
        Some(list) => Some(list@),
        None => None,
    }
}

impl View for ConfigUpdate {
    type V = ConfigUpdateView;

    open spec fn view(&self) -> ConfigUpdateView {
        ConfigUpdateView {
            admin: opt_text(self.admin),
            operator: opt_text(self.operator),
            nft_contract: opt_text(self.nft_contract),
            treasury: opt_text(self.treasury),
            treasury_bps: self.treasury_bps,
            payout_bps: opt_numbers(self.payout_bps),
            caller_bps: self.caller_bps,
            min_entries: self.min_entries,
            min_pot: self.min_pot,
            stale_after_secs: self.stale_after_secs,
            paused: self.paused,
        }
    }
}

#[allow(inconsistent_fields)]
pub enum ExecuteMsgView {
    RecordEntry {
        token_id: Seq<char>,
        minter: Seq<char>,
        entries: u32,
        amount: u128,
        entropy: Seq<u8>,
    },
    RecordFreeEntries { entries: Seq<FreeEntryItemView> },
    OpenRound { seed_hash: Seq<u8>, close_time: u64 },
    ExecuteDraw { round_id: u64, secret: Seq<u8> },
    SettleStale { round_id: u64 },
    RolloverRound { round_id: u64 },
    UpdateConfig { update: ConfigUpdateView },
}

impl View for ExecuteMsg {
    type V = ExecuteMsgView;

    open spec fn view(&self) -> ExecuteMsgView {
        match self {
            ExecuteMsg::RecordEntry { token_id, minter, entries, amount, entropy } =>
                ExecuteMsgView::RecordEntry {
                token_id: token_id@,
                minter: minter@,
                entries: *entries,
                amount: *amount,
                entropy: entropy@,
            },
            ExecuteMsg::RecordFreeEntries { entries } => ExecuteMsgView::RecordFreeEntries {
                entries: item_views(entries@),
            },
            ExecuteMsg::OpenRound { seed_hash, close_time } => ExecuteMsgView::OpenRound {
                seed_hash: seed_hash@,
                close_time: *close_time,
            },
            ExecuteMsg::ExecuteDraw { round_id, secret } => ExecuteMsgView::ExecuteDraw {
                round_id: *round_id,
                secret: secret@,
            },
            ExecuteMsg::SettleStale { round_id } => ExecuteMsgView::SettleStale {
                round_id: *round_id,
            },
            ExecuteMsg::RolloverRound { round_id } => ExecuteMsgView::RolloverRound {
                round_id: *round_id,
            },
            ExecuteMsg::UpdateConfig {
                admin,
                operator,
                nft_contract,
                treasury,
                treasury_bps,
                payout_bps,
                caller_bps,
                min_entries,
                min_pot,
                stale_after_secs,
                paused,
            } => ExecuteMsgView::UpdateConfig {
                update: ConfigUpdateView {
                    admin: opt_text(*admin),
                    operator: opt_text(*operator),
                    nft_contract: opt_text(*nft_contract),
                    treasury: opt_text(*treasury),
                    treasury_bps: *treasury_bps,
                    payout_bps: opt_numbers(*payout_bps),
                    caller_bps: *caller_bps,
                    min_entries: *min_entries,
                    min_pot: *min_pot,
                    stale_after_secs: *stale_after_secs,
                    paused: *paused,
                },
            },
        }
    }
}

/// Every field is optional. On a pool without an operator, the operator
/// becomes the admin of the day, before `admin` replaces it.
#[derive(Debug)]
pub struct MigrateMsg {
    pub admin: Option<String>,
    pub operator: Option<String>,
    pub stale_after_secs: Option<u64>,
}

pub struct MigrateMsgView {
    pub admin: Option<Seq<char>>,
    pub operator: Option<Seq<char>>,
    pub stale_after_secs: Option<u64>,
}

impl View for MigrateMsg {
    type V = MigrateMsgView;

    open spec fn view(&self) -> MigrateMsgView {
        MigrateMsgView {
            admin: opt_text(self.admin),
            operator: opt_text(self.operator),
            stale_after_secs: self.stale_after_secs,
        }
    }
}

impl Default for MigrateMsg {
    fn default() -> (msg: Self)
        ensures
            msg@ == (MigrateMsgView { admin: None, operator: None, stale_after_secs: None }),
    {
        MigrateMsg { admin: None, operator: None, stale_after_secs: None }
    }
}

#[derive(Debug, Clone, Copy, PartialEq, Eq)]
pub enum QueryMsg {
    Config {},
    Round { round_id: u64 },
    Rounds { start_after: Option<u64>, limit: Option<u32> },
    /// The round taking entries right now.
    CurrentRound {},
    /// Entries in id order, which is the order of the tickets.
    Entries { start_after: Option<u64>, limit: Option<u32> },
    /// Everything needed to recheck a settled round.
    Proof { round_id: u64 },
    Pot {},
}

#[derive(Debug)]
pub struct ConfigResponse {
    pub admin: String,
    pub operator: String,
    pub nft_contract: String,
    pub denom: String,
    pub treasury: String,
    pub treasury_bps: u64,
    pub payout_bps: Vec<u64>,
    pub caller_bps: u64,
    pub min_entries: u64,
    pub min_pot: u128,
    pub stale_after_secs: u64,
    pub paused: bool,
    pub next_unsettled_id: u64,
    pub last_round_id: u64,
    pub next_entry_id: u64,
    pub carry: u128,
}

#[verifier::ext_equal]
pub struct ConfigResponseView {
    pub admin: Seq<char>,
    pub operator: Seq<char>,
    pub nft_contract: Seq<char>,
    pub denom: Seq<char>,
    pub treasury: Seq<char>,
    pub treasury_bps: u64,
    pub payout_bps: Seq<u64>,
    pub caller_bps: u64,
    pub min_entries: u64,
    pub min_pot: u128,
    pub stale_after_secs: u64,
    pub paused: bool,
    pub next_unsettled_id: u64,
    pub last_round_id: u64,
    pub next_entry_id: u64,
    pub carry: u128,
}

impl View for ConfigResponse {
    type V = ConfigResponseView;

    open spec fn view(&self) -> ConfigResponseView {
        ConfigResponseView {
            admin: self.admin@,
            operator: self.operator@,
            nft_contract: self.nft_contract@,
            denom: self.denom@,
            treasury: self.treasury@,
            treasury_bps: self.treasury_bps,
            payout_bps: self.payout_bps@,
            caller_bps: self.caller_bps,
            min_entries: self.min_entries,
            min_pot: self.min_pot,
            stale_after_secs: self.stale_after_secs,
            paused: self.paused,
            next_unsettled_id: self.next_unsettled_id,
            last_round_id: self.last_round_id,
            next_entry_id: self.next_entry_id,
            carry: self.carry,
        }
    }
}

#[derive(Debug, PartialEq, Eq)]
pub struct RoundResponse {
    pub round_id: u64,
    pub seed_hash: Vec<u8>,
    pub opened_at: u64,
    pub close_time: u64,
    pub status: RoundStatus,
    pub first_entry_id: Option<u64>,
    pub last_entry_id: Option<u64>,
    pub secret: Option<Vec<u8>>,
    pub entropy: Option<Vec<u8>>,
    pub result: Option<Vec<u8>>,
    pub total_entries: Option<u64>,
    pub winner_indexes: Vec<u64>,
    pub winners: Vec<String>,
    pub pot: Option<u128>,
    pub settled_at: Option<u64>,
    pub has_late_entries: bool,
}

#[verifier::ext_equal]
pub struct RoundResponseView {
    pub round_id: u64,
    pub seed_hash: Seq<u8>,
    pub opened_at: u64,
    pub close_time: u64,
    pub status: RoundStatus,
    pub first_entry_id: Option<u64>,
    pub last_entry_id: Option<u64>,
    pub secret: Option<Seq<u8>>,
    pub entropy: Option<Seq<u8>>,
    pub result: Option<Seq<u8>>,
    pub total_entries: Option<u64>,
    pub winner_indexes: Seq<u64>,
    pub winners: Seq<Seq<char>>,
    pub pot: Option<u128>,
    pub settled_at: Option<u64>,
    pub has_late_entries: bool,
}

impl View for RoundResponse {
    type V = RoundResponseView;

    open spec fn view(&self) -> RoundResponseView {
        RoundResponseView {
            round_id: self.round_id,
            seed_hash: self.seed_hash@,
            opened_at: self.opened_at,
            close_time: self.close_time,
            status: self.status,
            first_entry_id: self.first_entry_id,
            last_entry_id: self.last_entry_id,
            secret: opt_bytes(self.secret),
            entropy: opt_bytes(self.entropy),
            result: opt_bytes(self.result),
            total_entries: self.total_entries,
            winner_indexes: self.winner_indexes@,
            winners: texts(self.winners@),
            pot: self.pot,
            settled_at: self.settled_at,
            has_late_entries: self.has_late_entries,
        }
    }
}

#[derive(Debug, PartialEq, Eq)]
pub struct RoundsResponse {
    pub rounds: Vec<RoundResponse>,
}

impl View for RoundsResponse {
    type V = Seq<RoundResponseView>;

    open spec fn view(&self) -> Seq<RoundResponseView> {
        self.rounds@.map_values(|r: RoundResponse| r@)
    }
}

#[derive(Debug, PartialEq, Eq)]
pub struct EntryResponse {
    pub entry_id: u64,
    pub entry: Entry,
}

impl View for EntryResponse {
    type V = (u64, EntryView);

    open spec fn view(&self) -> (u64, EntryView) {
        (self.entry_id, self.entry@)
    }
}

/// The entries in a list of responses.
pub open spec fn entry_views(entries: Seq<EntryResponse>) -> Seq<(u64, EntryView)> {
    entries.map_values(|e: EntryResponse| e@)
}

#[derive(Debug, PartialEq, Eq)]
pub struct EntriesResponse {
    pub entries: Vec<EntryResponse>,
}

impl View for EntriesResponse {
    type V = Seq<(u64, EntryView)>;

    open spec fn view(&self) -> Seq<(u64, EntryView)> {
        entry_views(self.entries@)
    }
}

#[derive(Debug, PartialEq, Eq)]
pub struct ProofResponse {
    pub round_id: u64,
    pub seed_hash: Vec<u8>,
    pub secret: Option<Vec<u8>>,
    pub entropy: Option<Vec<u8>>,
    pub result: Option<Vec<u8>>,
    pub total_entries: Option<u64>,
    pub winner_indexes: Vec<u64>,
    pub winners: Vec<String>,
    /// The round's entries in order, so that the tickets can be laid out again
    /// exactly as they were.
    pub entries: Vec<EntryResponse>,
}

#[verifier::ext_equal]
pub struct ProofResponseView {
    pub round_id: u64,
    pub seed_hash: Seq<u8>,
    pub secret: Option<Seq<u8>>,
    pub entropy: Option<Seq<u8>>,
    pub result: Option<Seq<u8>>,
    pub total_entries: Option<u64>,
    pub winner_indexes: Seq<u64>,
    pub winners: Seq<Seq<char>>,
    pub entries: Seq<(u64, EntryView)>,
}

impl View for ProofResponse {
    type V = ProofResponseView;

    open spec fn view(&self) -> ProofResponseView {
        ProofResponseView {
            round_id: self.round_id,
            seed_hash: self.seed_hash@,
            secret: opt_bytes(self.secret),
            entropy: opt_bytes(self.entropy),
            result: opt_bytes(self.result),
            total_entries: self.total_entries,
            winner_indexes: self.winner_indexes@,
            winners: texts(self.winners@),
            entries: entry_views(self.entries@),
        }
    }
}

#[derive(Debug, PartialEq, Eq)]
pub struct PotResponse {
    pub denom: String,
    /// The pool's balance, money of future rounds included.
    pub balance: u128,
    /// Carried over from settled rounds.
    pub carry: u128,
    /// Sum of entry amounts not yet consumed by a settlement.
    pub pending: u128,
}

pub struct PotResponseView {
    pub denom: Seq<char>,
    pub balance: u128,
    pub carry: u128,
    pub pending: u128,
}

impl View for PotResponse {
    type V = PotResponseView;

    open spec fn view(&self) -> PotResponseView {
        PotResponseView {
            denom: self.denom@,
            balance: self.balance,
            carry: self.carry,
            pending: self.pending,
        }
    }
}

/// The answer to a query.
#[derive(Debug)]
pub enum QueryResponse {
    Config(ConfigResponse),
    Round(RoundResponse),
    Rounds(RoundsResponse),
    Entries(EntriesResponse),
    Proof(ProofResponse),
    Pot(PotResponse),
}

pub enum QueryResponseView {
    Config(ConfigResponseView),
    Round(RoundResponseView),
    Rounds(Seq<RoundResponseView>),
    Entries(Seq<(u64, EntryView)>),
    Proof(ProofResponseView),
    Pot(PotResponseView),
}

impl View for QueryResponse {
    type V = QueryResponseView;

    open spec fn view(&self) -> QueryResponseView {
        match self {
            QueryResponse::Config(r) => QueryResponseView::Config(r@),
            QueryResponse::Round(r) => QueryResponseView::Round(r@),
            QueryResponse::Rounds(r) => QueryResponseView::Rounds(r@),
            QueryResponse::Entries(r) => QueryResponseView::Entries(r@),
            QueryResponse::Proof(r) => QueryResponseView::Proof(r@),
            QueryResponse::Pot(r) => QueryResponseView::Pot(r@),
        }
    }
}

/// Money the pool sends.
#[derive(Debug, PartialEq, Eq)]
pub struct BankSend {
    pub to_address: String,
    pub amount: u128,
    pub denom: String,
}

pub struct BankSendView {
    pub to_address: Seq<char>,
    pub amount: u128,
    pub denom: Seq<char>,
}

impl View for BankSend {
    type V = BankSendView;

    open spec fn view(&self) -> BankSendView {
        BankSendView { to_address: self.to_address@, amount: self.amount, denom: self.denom@ }
    }
}

/// One line of what a call reports.
#[derive(Debug, PartialEq, Eq)]
pub struct Attribute {
    pub key: String,
    pub value: String,
}

impl View for Attribute {
    type V = (Seq<char>, Seq<char>);

    open spec fn view(&self) -> (Seq<char>, Seq<char>) {
        (self.key@, self.value@)
    }
}

/// What a call sends and reports.
#[derive(Debug, PartialEq, Eq)]
pub struct Response {
    pub messages: Vec<BankSend>,
    pub attributes: Vec<Attribute>,
}

#[verifier::ext_equal]
pub struct ResponseView {
    pub messages: Seq<BankSendView>,
    pub attributes: Seq<(Seq<char>, Seq<char>)>,
}

/// The messages in a list.
pub open spec fn send_views(messages: Seq<BankSend>) -> Seq<BankSendView> {
    messages.map_values(|m: BankSend| m@)
}

impl View for Response {
    type V = ResponseView;

    open spec fn view(&self) -> ResponseView {
        ResponseView {
            messages: send_views(self.messages@),
            attributes: self.attributes@.map_values(|a: Attribute| a@),
        }
    }
}

/// A response that sends nothing and reports these lines.
pub open spec fn report(attributes: Seq<(Seq<char>, Seq<char>)>) -> ResponseView {
    ResponseView { messages: Seq::empty(), attributes }
}

impl Response {
    pub fn new() -> (response: Self)
        ensures
            response@ == report(Seq::empty()),
    {
        let response: Response = Response { messages: Vec::new(), attributes: Vec::new() };
        assert(response@ =~= report(Seq::empty()));
        response
    }

    pub fn add_attribute(self, key: &str, value: String) -> (response: Self)
        ensures
            response@ == (ResponseView {
                attributes: self@.attributes.push((key@, value@)),
                ..self@
            }),
    {
        let mut attributes: Vec<Attribute> = self.attributes;
        attributes.push(Attribute { key: key.to_owned(), value });
        let response: Response = Response { messages: self.messages, attributes };
        assert(response@.attributes =~= self@.attributes.push((key@, value@)));
        response
    }

    pub fn with_messages(self, messages: Vec<BankSend>) -> (response: Self)
        ensures
            response@ == (ResponseView { messages: send_views(messages@), ..self@ }),
    {
        Response { messages, attributes: self.attributes }
    }
}

} // verus!
