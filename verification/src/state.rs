//! What the pool keeps.

use vstd::prelude::*;

use crate::bytes::copied;
use crate::table::{ascending, Table};
use crate::text::texts;

verus! {

/// How the pool is run. One instance per pool: a daily and a weekly pool are
/// separate, with separate funds.
#[derive(Debug, PartialEq, Eq)]
pub struct Config {
    /// Edits the configuration and records free entries. Cannot influence an
    /// outcome: the seed is committed before the entries exist, and the
    /// entropy comes from minters.
    pub admin: String,
    /// The automation key, which opens rounds. Absent on a pool that was given
    /// none; whoever is admin then acts as operator.
    pub operator: Option<String>,
    /// The only address that may record a paid entry.
    pub nft_contract: String,
    pub denom: String,
    pub treasury: String,
    pub treasury_bps: u64,
    /// Basis points per prize place, first place first.
    pub payout_bps: Vec<u64>,
    /// Paid to whoever settles a round.
    pub caller_bps: u64,
    /// Below this many tickets a round is skipped and consumes nothing.
    pub min_entries: u64,
    /// Below this pot a round is skipped too. Zero disables the check.
    pub min_pot: u128,
    /// How long past its close a round waits for its secret.
    pub stale_after_secs: u64,
    /// Stops paid entries only, never a settlement.
    pub paused: bool,
}

#[verifier::ext_equal]
pub struct ConfigView {
    pub admin: Seq<char>,
    pub operator: Option<Seq<char>>,
    pub nft_contract: Seq<char>,
    pub denom: Seq<char>,
    pub treasury: Seq<char>,
    pub treasury_bps: u64,
    pub payout_bps: Seq<u64>,
    pub caller_bps: u64,
    pub min_entries: u64,
    pub min_pot: u128,
    pub stale_after_secs: u64,
    pub paused: bool,
}

/// The text in an optional string.
pub open spec fn opt_text(s: Option<String>) -> Option<Seq<char>> {
    match s {
        Some(s) => Some(s@),
        None => None,
    }
}

/// The bytes in an optional byte string.
pub open spec fn opt_bytes(b: Option<Vec<u8>>) -> Option<Seq<u8>> {
    match b {
        Some(b) => Some(b@),
        None => None,
    }
}

impl View for Config {
    type V = ConfigView;

    open spec fn view(&self) -> ConfigView {
        ConfigView {
            admin: self.admin@,
            operator: opt_text(self.operator),
            nft_contract: self.nft_contract@,
            denom: self.denom@,
            treasury: self.treasury@,
            treasury_bps: self.treasury_bps,
            payout_bps: self.payout_bps@,
            caller_bps: self.caller_bps,
            min_entries: self.min_entries,
            min_pot: self.min_pot,
            stale_after_secs: self.stale_after_secs,
            paused: self.paused,
        }
    }
}

/// The terms a round is settled on, fixed when it opens.
#[derive(Debug, PartialEq, Eq)]
pub struct RoundTerms {
    pub treasury_bps: u64,
    pub payout_bps: Vec<u64>,
    pub caller_bps: u64,
    pub min_entries: u64,
    pub min_pot: u128,
    pub stale_after_secs: u64,
}

#[verifier::ext_equal]
pub struct RoundTermsView {
    pub treasury_bps: u64,
    pub payout_bps: Seq<u64>,
    pub caller_bps: u64,
    pub min_entries: u64,
    pub min_pot: u128,
    pub stale_after_secs: u64,
}

impl View for RoundTerms {
    type V = RoundTermsView;

    open spec fn view(&self) -> RoundTermsView {
        RoundTermsView {
            treasury_bps: self.treasury_bps,
            payout_bps: self.payout_bps@,
            caller_bps: self.caller_bps,
            min_entries: self.min_entries,
            min_pot: self.min_pot,
            stale_after_secs: self.stale_after_secs,
        }
    }
}

/// One mint, or one free entry.
#[derive(Debug, PartialEq, Eq)]
pub struct Entry {
    /// The minted token; empty for a free entry.
    pub token_id: String,
    /// Owner at mint time, or the wallet that earned a free entry. The prize
    /// of a token goes to whoever holds it when the round is settled.
    pub minter: String,
    /// Ticket weight.
    pub entries: u32,
    /// Pool share of this mint.
    pub amount: u128,
    /// What the minter added to the draw.
    pub entropy: Vec<u8>,
    /// When it was recorded, in nanoseconds.
    pub recorded_at: u64,
    /// Earned, not minted: no token stands behind it and it brings no money.
    pub free: bool,
}

#[verifier::ext_equal]
pub struct EntryView {
    pub token_id: Seq<char>,
    pub minter: Seq<char>,
    pub entries: u32,
    pub amount: u128,
    pub entropy: Seq<u8>,
    pub recorded_at: u64,
    pub free: bool,
}

impl View for Entry {
    type V = EntryView;

    open spec fn view(&self) -> EntryView {
        EntryView {
            token_id: self.token_id@,
            minter: self.minter@,
            entries: self.entries,
            amount: self.amount,
            entropy: self.entropy@,
            recorded_at: self.recorded_at,
            free: self.free,
        }
    }
}

#[derive(Debug, Clone, Copy, PartialEq, Eq, Structural)]
pub enum RoundStatus {
    /// Committed, taking entries until it closes.
    Open,
    /// Past its close, waiting for the secret. Told in queries, never kept.
    Closed,
    /// Settled and paid. Immutable.
    Drawn,
    /// Closed with too few tickets or too small a pot. Consumes nothing: its
    /// entries belong to the next round.
    Skipped,
    /// Nobody revealed in time and there was nothing to draw. Also consumes
    /// nothing.
    RolledOver,
}

#[derive(Debug, PartialEq, Eq)]
pub struct Round {
    /// SHA-256 of the secret, fixed at open.
    pub seed_hash: Vec<u8>,
    /// In nanoseconds, as every time here.
    pub opened_at: u64,
    pub close_time: u64,
    pub status: RoundStatus,
    /// Filled in at settlement, as all that follows up to
    /// `has_late_entries`. A round starts where the one before it ended; a
    /// skipped round leaves the boundary where it was.
    pub first_entry_id: Option<u64>,
    pub last_entry_id: Option<u64>,
    /// Absent on a round that was drawn without a reveal.
    pub secret: Option<Vec<u8>>,
    pub entropy: Option<Vec<u8>>,
    pub result: Option<Vec<u8>>,
    pub total_entries: Option<u64>,
    pub winner_indexes: Vec<u64>,
    pub winners: Vec<String>,
    pub pot: Option<u128>,
    pub settled_at: Option<u64>,
    /// Some of the round's entries are older than its commitment.
    pub has_late_entries: bool,
    /// Absent on a round that was opened before terms were fixed; the
    /// configuration of the day then stands in.
    pub terms: Option<RoundTerms>,
}

#[verifier::ext_equal]
pub struct RoundView {
    pub seed_hash: Seq<u8>,
    pub opened_at: u64,
    pub close_time: u64,
    pub status: RoundStatus,
    pub first_entry_id: Option<u64>,
    pub last_entry_id: Option<u64>,
    pub secret: Option<Seq<u8>>,
    pub entropy: Option<Seq<u8>>,
    pub result: Option<Seq<u8>>,
    pub total_entries: Option<u64>,
    pub winner_indexes: Seq<u64>,
    pub winners: Seq<Seq<char>>,
    pub pot: Option<u128>,
    pub settled_at: Option<u64>,
    pub has_late_entries: bool,
    pub terms: Option<RoundTermsView>,
}

impl View for Round {
    type V = RoundView;

    open spec fn view(&self) -> RoundView {
        RoundView {
            seed_hash: self.seed_hash@,
            opened_at: self.opened_at,
            close_time: self.close_time,
            status: self.status,
            first_entry_id: self.first_entry_id,
            last_entry_id: self.last_entry_id,
            secret: opt_bytes(self.secret),
            entropy: opt_bytes(self.entropy),
            result: opt_bytes(self.result),
            total_entries: self.total_entries,
            winner_indexes: self.winner_indexes@,
            winners: texts(self.winners@),
            pot: self.pot,
            settled_at: self.settled_at,
            has_late_entries: self.has_late_entries,
            terms: match self.terms {
                Some(terms) => Some(terms@),
                None => None,
            },
        }
    }
}

/// All that the pool keeps. A caller may load only the rows a call can touch;
/// the rows that are loaded are taken for all there are.
#[derive(Debug)]
pub struct State {
    pub config: Config,
    pub entries: Table<Entry>,
    pub next_entry_id: u64,
    pub rounds: Table<Round>,
    /// Lowest round id not yet settled. Settlement is strictly in order.
    pub next_unsettled_id: u64,
    /// Highest round id opened so far.
    pub last_round_id: u64,
    /// Money that belongs to no entry still waiting.
    pub carry: u128,
}

#[verifier::ext_equal]
pub struct StateView {
    pub config: ConfigView,
    pub entries: Seq<(u64, EntryView)>,
    pub next_entry_id: u64,
    pub rounds: Seq<(u64, RoundView)>,
    pub next_unsettled_id: u64,
    pub last_round_id: u64,
    pub carry: u128,
}

impl View for State {
    type V = StateView;

    open spec fn view(&self) -> StateView {
        StateView {
            config: self.config@,
            entries: self.entries@,
            next_entry_id: self.next_entry_id,
            rounds: self.rounds@,
            next_unsettled_id: self.next_unsettled_id,
            last_round_id: self.last_round_id,
            carry: self.carry,
        }
    }
}

/// The longest entropy an entry may carry.
pub const MAX_ENTROPY_BYTES: usize = 256;

/// Nanoseconds in a second.
pub const NANOS: u64 = 1_000_000_000;

/// The length of a commitment.
pub const SEED_HASH_BYTES: usize = 32;

/// Basis points in a whole.
pub const WHOLE_BPS: u64 = 10_000;

/// What the shares add up to.
pub open spec fn share_sum(shares: Seq<u64>) -> nat
    decreases shares.len(),
{
    if shares.len() == 0 {
        0
    } else {
        share_sum(shares.drop_last()) + shares.last() as nat
    }
}

impl RoundTermsView {
    /// All that a settlement pays out, in basis points of the pot.
    pub open spec fn total_bps(self) -> nat {
        share_sum(self.payout_bps) + self.treasury_bps as nat + self.caller_bps as nat
    }

    /// A settlement pays out no more than the pot, and there is a place to
    /// win.
    pub open spec fn fair(self) -> bool {
        &&& self.total_bps() <= WHOLE_BPS
        &&& self.payout_bps.len() > 0
    }
}

impl ConfigView {
    /// The terms that a round opened now is settled on.
    pub open spec fn terms(self) -> RoundTermsView {
        RoundTermsView {
            treasury_bps: self.treasury_bps,
            payout_bps: self.payout_bps,
            caller_bps: self.caller_bps,
            min_entries: self.min_entries,
            min_pot: self.min_pot,
            stale_after_secs: self.stale_after_secs,
        }
    }

    /// Who acts as operator.
    pub open spec fn operator_key(self) -> Seq<char> {
        match self.operator {
            Some(operator) => operator,
            None => self.admin,
        }
    }
}

impl RoundView {
    /// The terms the round is settled on.
    pub open spec fn terms_under(self, config: ConfigView) -> RoundTermsView {
        match self.terms {
            Some(terms) => terms,
            None => config.terms(),
        }
    }

    /// Committed and not settled: nothing that settlement fills in is there.
    pub open spec fn untouched(self) -> bool {
        &&& self.status == RoundStatus::Open
        &&& self.first_entry_id is None
        &&& self.last_entry_id is None
        &&& self.secret is None
        &&& self.entropy is None
        &&& self.result is None
        &&& self.total_entries is None
        &&& self.winner_indexes.len() == 0
        &&& self.winners.len() == 0
        &&& self.pot is None
        &&& self.settled_at is None
        &&& !self.has_late_entries
    }

    /// Settled, with a boundary that stays within the entries there are.
    pub open spec fn is_settled(self, next_entry_id: u64) -> bool {
        &&& self.status == RoundStatus::Drawn || self.status == RoundStatus::Skipped || self.status
            == RoundStatus::RolledOver
        &&& self.first_entry_id matches Some(first) && self.last_entry_id matches Some(last)
            && 1 <= first <= last + 1 && last < next_entry_id
    }
}

/// An entry has a ticket and entropy, and a free one has no money.
pub open spec fn entry_ok(entry: EntryView) -> bool {
    &&& entry.entries > 0
    &&& 1 <= entry.entropy.len() <= MAX_ENTROPY_BYTES
    &&& entry.free ==> entry.amount == 0
}

impl StateView {
    /// What holds of a round under its id.
    pub open spec fn round_ok(self, id: u64, round: RoundView) -> bool {
        &&& 1 <= id <= self.last_round_id
        &&& round.seed_hash.len() == SEED_HASH_BYTES
        &&& round.terms matches Some(terms) ==> terms.fair()
        &&& if id < self.next_unsettled_id {
            round.is_settled(self.next_entry_id)
        } else {
            round.untouched()
        }
    }

    /// What every call keeps.
    pub open spec fn wf(self) -> bool {
        &&& self.config.terms().fair()
        &&& ascending(self.entries)
        &&& 1 <= self.next_entry_id
        &&& forall|i: int|
            0 <= i < self.entries.len() ==> {
                &&& 1 <= (#[trigger] self.entries[i]).0 < self.next_entry_id
                &&& entry_ok(self.entries[i].1)
            }
        &&& ascending(self.rounds)
        &&& 1 <= self.next_unsettled_id <= self.last_round_id + 1
        &&& forall|i: int|
            0 <= i < self.rounds.len() ==> self.round_ok(
                (#[trigger] self.rounds[i]).0,
                self.rounds[i].1,
            )
        &&& forall|i: int, j: int|
            0 <= i < j < self.rounds.len() ==> (#[trigger] self.rounds[i]).1.close_time < (
            #[trigger] self.rounds[j]).1.close_time
    }
}

/// A copy of a list of numbers.
pub fn copied_numbers(list: &Vec<u64>) -> (copy: Vec<u64>)
    ensures
        copy@ == list@,
{
    let copy: Vec<u64> = list.clone();
    assert(copy@ =~= list@);
    copy
}

/// A copy of a list of strings.
pub fn copied_texts(list: &Vec<String>) -> (copy: Vec<String>)
    ensures
        texts(copy@) == texts(list@),
{
    let copy: Vec<String> = list.clone();
    assert(texts(copy@) =~= texts(list@));
    copy
}

/// A copy of an optional byte string.
pub fn copied_option(bytes: &Option<Vec<u8>>) -> (copy: Option<Vec<u8>>)
    ensures
        opt_bytes(copy) == opt_bytes(*bytes),
{
    match bytes {
        Some(b) => Some(copied(b)),
        None => None,
    }
}

impl Clone for RoundTerms {
    fn clone(&self) -> (copy: Self)
        ensures
            copy@ == self@,
    {
        RoundTerms {
            treasury_bps: self.treasury_bps,
            payout_bps: copied_numbers(&self.payout_bps),
            caller_bps: self.caller_bps,
            min_entries: self.min_entries,
            min_pot: self.min_pot,
            stale_after_secs: self.stale_after_secs,
        }
    }
}

impl Config {
    /// The terms that a round opened now is settled on.
    pub fn terms(&self) -> (terms: RoundTerms)
        ensures
            terms@ == self@.terms(),
    {
        RoundTerms {
            treasury_bps: self.treasury_bps,
            payout_bps: copied_numbers(&self.payout_bps),
            caller_bps: self.caller_bps,
            min_entries: self.min_entries,
            min_pot: self.min_pot,
            stale_after_secs: self.stale_after_secs,
        }
    }

    /// Who acts as operator.
    pub fn operator_key(&self) -> (key: &String)
        ensures
            key@ == self@.operator_key(),
    {
        match &self.operator {
            Some(operator) => operator,
            None => &self.admin,
        }
    }
}

impl Clone for Config {
    fn clone(&self) -> (copy: Self)
        ensures
            copy@ == self@,
    {
        Config {
            admin: self.admin.clone(),
            operator: match &self.operator {
                Some(operator) => Some(operator.clone()),
                None => None,
            },
            nft_contract: self.nft_contract.clone(),
            denom: self.denom.clone(),
            treasury: self.treasury.clone(),
            treasury_bps: self.treasury_bps,
            payout_bps: copied_numbers(&self.payout_bps),
            caller_bps: self.caller_bps,
            min_entries: self.min_entries,
            min_pot: self.min_pot,
            stale_after_secs: self.stale_after_secs,
            paused: self.paused,
        }
    }
}

impl Clone for Entry {
    fn clone(&self) -> (copy: Self)
        ensures
            copy@ == self@,
    {
        Entry {
            token_id: self.token_id.clone(),
            minter: self.minter.clone(),
            entries: self.entries,
            amount: self.amount,
            entropy: copied(&self.entropy),
            recorded_at: self.recorded_at,
            free: self.free,
        }
    }
}

impl Clone for Round {
    fn clone(&self) -> (copy: Self)
        ensures
            copy@ == self@,
    {
        Round {
            seed_hash: copied(&self.seed_hash),
            opened_at: self.opened_at,
            close_time: self.close_time,
            status: self.status,
            first_entry_id: self.first_entry_id,
            last_entry_id: self.last_entry_id,
            secret: copied_option(&self.secret),
            entropy: copied_option(&self.entropy),
            result: copied_option(&self.result),
            total_entries: self.total_entries,
            winner_indexes: copied_numbers(&self.winner_indexes),
            winners: copied_texts(&self.winners),
            pot: self.pot,
            settled_at: self.settled_at,
            has_late_entries: self.has_late_entries,
            terms: match &self.terms {
                Some(terms) => Some(terms.clone()),
                None => None,
            },
        }
    }
}

} // verus!
