//! Balances and transfers: what is to be changed in the books, and when a change is refused.
//!
//! The books are kept in a database that this module does not touch. It says which statements the
//! database is to carry out, all of them or none.

use crate::clock;
use crate::double;
use crate::double::Double;
use crate::id;
use crate::text;
use vstd::prelude::*;
use vstd::string::StringExecFns;

verus! {

/// The file that holds the books.
pub const DB_FILE: &'static str = "cryptocraft_users.db";

// ---- Time ----------------------------------------------------------------------------------

/// A number of seconds as a signed number: beyond the greatest of those it turns negative.
pub open spec fn signed(secs: u64) -> int {
    if secs <= i64::MAX {
        secs as int
    } else {
        secs - 0x1_0000_0000_0000_0000
    }
}

/// A number of seconds as a signed number.
pub fn timestamp_of(secs: u64) -> (ts: i64)
    ensures
        ts == signed(secs),
{
    let ts: i64 = #[verifier::truncate] (secs as i64);
    assert(secs <= 0x7fff_ffff_ffff_ffff ==> #[verifier::truncate] (secs as i64) == secs)
        by (bit_vector);
    assert(secs > 0x7fff_ffff_ffff_ffff ==> #[verifier::truncate] (secs as i64) == secs
        - 0x1_0000_0000_0000_0000) by (bit_vector);
    ts
}

/// The time now, in seconds since the Unix epoch. What the clock says is left open.
pub fn now_ts() -> (ts: i64) {
    timestamp_of(clock::seconds_since_epoch())
}

/// The time is what the clock says, or zero where the clock stands before the epoch. As a signed
/// number it is the same, and so never negative, for as long as it can be written as one.
pub proof fn law_time_is_what_the_clock_says(clock: int)
    requires
        clock <= u64::MAX,
    ensures
        ({
            let secs = clock::secs_of(clock::reading(clock));
            &&& secs == (if clock < 0 {
                0
            } else {
                clock
            })
            &&& clock <= i64::MAX ==> signed(secs) == secs && signed(secs) >= 0
            &&& clock > i64::MAX ==> signed(secs) < 0 && signed(secs) == secs
                - 0x1_0000_0000_0000_0000
        }),
{
}

// ---- Records and statements -------------------------------------------------------------------

/// A transaction: a transfer, or a mining reward where nobody sent it.
pub struct TxRecord {
    pub id: String,
    pub sender_id: Option<String>,
    pub receiver_id: String,
    pub amount: Double,
    pub memo: String,
    pub timestamp: i64,
}

/// A transaction.
#[verifier::ext_equal]
pub struct TxRecordView {
    pub id: Seq<char>,
    pub sender_id: Option<Seq<char>>,
    pub receiver_id: Seq<char>,
    pub amount: Double,
    pub memo: Seq<char>,
    pub timestamp: i64,
}

impl View for TxRecord {
    type V = TxRecordView;

    open spec fn view(&self) -> TxRecordView {
        TxRecordView {
            id: self.id@,
            sender_id: match self.sender_id {
                Some(s) => Some(s@),
                None => None,
            },
            receiver_id: self.receiver_id@,
            amount: self.amount,
            memo: self.memo@,
            timestamp: self.timestamp,
        }
    }
}

/// A change of the books.
pub enum Statement {
    /// Open a balance of nothing for an account that has none.
    EnsureRow { user_id: String },
    /// Raise the balance of an account.
    Raise { user_id: String, amount: Double },
    /// Lower the balance of an account.
    Lower { user_id: String, amount: Double },
    /// Write down a transaction.
    Record { tx: TxRecord },
}

/// A change of the books.
#[verifier::ext_equal]
pub enum StatementView {
    EnsureRow { user_id: Seq<char> },
    Raise { user_id: Seq<char>, amount: Double },
    Lower { user_id: Seq<char>, amount: Double },
    Record { tx: TxRecordView },
}

impl View for Statement {
    type V = StatementView;

    open spec fn view(&self) -> StatementView {
        match *self {
            Statement::EnsureRow { user_id } => StatementView::EnsureRow { user_id: user_id@ },
            Statement::Raise { user_id, amount } => StatementView::Raise {
                user_id: user_id@,
                amount,
            },
            Statement::Lower { user_id, amount } => StatementView::Lower {
                user_id: user_id@,
                amount,
            },
            Statement::Record { tx } => StatementView::Record { tx: tx@ },
        }
    }
}

/// What a list of statements says.
pub open spec fn said(plan: Seq<Statement>) -> Seq<StatementView> {
    plan.map_values(|s: Statement| s@)
}

// ---- Balances ----------------------------------------------------------------------------------

/// The balance of an account, given what the books hold of it: nothing where they hold none.
pub fn get_balance(row: Option<Double>) -> (balance: Double)
    ensures
        balance == (match row {
            Some(b) => b,
            None => Double { bits: 0 },
        }),
{
    match row {
        Some(b) => b,
        None => Double { bits: 0 },
    }
}

/// What makes sure that an account has a balance.
pub fn ensure_balance_row(user_id: &str) -> (statement: Statement)
    ensures
        statement@ == (StatementView::EnsureRow { user_id: user_id@ }),
{
    Statement::EnsureRow { user_id: user_id.to_owned() }
}

/// The address under which an account is looked up.
pub fn lookup_email(email: &str) -> (address: String)
    ensures
        address@ == text::normalized(email@),
{
    text::normalize(email)
}

// ---- Credit ------------------------------------------------------------------------------------

/// What credits an amount that nobody sent to an account.
pub open spec fn crediting(
    receiver_id: Seq<char>,
    amount: Double,
    memo: Seq<char>,
    id: Seq<char>,
    timestamp: i64,
) -> Seq<StatementView> {
    seq![
        StatementView::EnsureRow { user_id: receiver_id },
        StatementView::Raise { user_id: receiver_id, amount },
        StatementView::Record {
            tx: TxRecordView { id, sender_id: None, receiver_id, amount, memo, timestamp },
        },
    ]
}

/// What credits an amount to an account, under a given identifier and time.
pub fn credit_at(receiver_id: &str, amount: Double, memo: &str, id: String, timestamp: i64) -> (plan:
    Vec<Statement>)
    ensures
        said(plan@) == crediting(receiver_id@, amount, memo@, id@, timestamp),
{
    let mut plan: Vec<Statement> = Vec::new();
    let ghost tx_id = id@;
    plan.push(Statement::EnsureRow { user_id: receiver_id.to_owned() });
    plan.push(Statement::Raise { user_id: receiver_id.to_owned(), amount });
    plan.push(
        Statement::Record {
            tx: TxRecord {
                id,
                sender_id: None,
                receiver_id: receiver_id.to_owned(),
                amount,
                memo: memo.to_owned(),
                timestamp,
            },
        },
    );
    assert(said(plan@) =~= crediting(receiver_id@, amount, memo@, tx_id, timestamp));
    plan
}

/// What credits an amount to an account now. The identifier and the time are left open.
pub fn credit(receiver_id: &str, amount: Double, memo: &str) -> (plan: Vec<Statement>)
    ensures
        exists|id: Seq<char>, timestamp: i64|
            id::identifies(id) && said(plan@) == #[trigger] crediting(
                receiver_id@,
                amount,
                memo@,
                id,
                timestamp,
            ),
{
    let id = id::fresh_id();
    let timestamp: i64 = now_ts();
    let ghost tx_id = id@;
    let plan = credit_at(receiver_id, amount, memo, id, timestamp);
    assert(id::identifies(tx_id) && said(plan@) == crediting(
        receiver_id@,
        amount,
        memo@,
        tx_id,
        timestamp,
    ));
    plan
}

// ---- Transfer ----------------------------------------------------------------------------------

/// What the books hold of the two sides of a transfer; `None` stands for a question that they did
/// not answer.
pub struct Standing {
    /// The balance of the sender.
    pub balance: Option<Double>,
    /// How many accounts the receiver has.
    pub receivers: Option<i64>,
    /// How many accounts the sender has.
    pub senders: Option<i64>,
}

/// Why a transfer is refused.
#[derive(Clone, Copy, Debug, PartialEq, Eq, Structural)]
pub enum TransferError {
    /// The amount is not above zero.
    NotPositive,
    /// The sender does not have as much.
    Insufficient,
    /// There is no such receiver.
    NoReceiver,
    /// There is no such sender.
    NoSender,
}

/// Whether the books know of an account.
pub open spec fn known(count: Option<i64>) -> bool {
    count matches Some(n) && n > 0
}

fn is_known(count: &Option<i64>) -> (yes: bool)
    ensures
        yes == known(*count),
{
    match count {
        Some(n) => *n > 0,
        None => false,
    }
}

/// The balance of the sender, nothing where the books hold none.
pub open spec fn held(standing: Standing) -> Double {
    match standing.balance {
        Some(b) => b,
        None => Double { bits: 0 },
    }
}

/// Why a transfer of an amount is refused, if it is.
pub open spec fn objection(amount: Double, standing: Standing) -> Option<TransferError> {
    if amount.at_most(Double { bits: 0 }) {
        Some(TransferError::NotPositive)
    } else if held(standing).less(amount) {
        Some(TransferError::Insufficient)
    } else if !known(standing.receivers) {
        Some(TransferError::NoReceiver)
    } else if !known(standing.senders) {
        Some(TransferError::NoSender)
    } else {
        None
    }
}

/// What moves an amount from one account to another.
pub open spec fn moving(
    sender_id: Seq<char>,
    receiver_id: Seq<char>,
    amount: Double,
    memo: Seq<char>,
    id: Seq<char>,
    timestamp: i64,
) -> Seq<StatementView> {
    seq![
        StatementView::Lower { user_id: sender_id, amount },
        StatementView::EnsureRow { user_id: receiver_id },
        StatementView::Raise { user_id: receiver_id, amount },
        StatementView::Record {
            tx: TxRecordView {
                id,
                sender_id: Some(sender_id),
                receiver_id,
                amount,
                memo,
                timestamp,
            },
        },
    ]
}

/// Decides on a transfer, under a given identifier and time: what the books are to be changed by,
/// or why not.
pub fn transfer_at(
    sender_id: &str,
    receiver_id: &str,
    amount: Double,
    memo: &str,
    standing: &Standing,
    id: String,
    timestamp: i64,
) -> (plan: Result<Vec<Statement>, TransferError>)
    ensures
        match plan {
            Ok(p) => objection(amount, *standing) is None && said(p@) == moving(
                sender_id@,
                receiver_id@,
                amount,
                memo@,
                id@,
                timestamp,
            ),
            Err(e) => objection(amount, *standing) == Some(e),
        },
{
    let zero = Double { bits: 0 };
    if amount.at_most_as(&zero) {
        return Err(TransferError::NotPositive);
    }
    let balance = get_balance(standing.balance);
    if balance.less_than(&amount) {
        return Err(TransferError::Insufficient);
    }
    if !is_known(&standing.receivers) {
        return Err(TransferError::NoReceiver);
    }
    if !is_known(&standing.senders) {
        return Err(TransferError::NoSender);
    }
    let mut plan: Vec<Statement> = Vec::new();
    let ghost tx_id = id@;
    plan.push(Statement::Lower { user_id: sender_id.to_owned(), amount });
    plan.push(Statement::EnsureRow { user_id: receiver_id.to_owned() });
    plan.push(Statement::Raise { user_id: receiver_id.to_owned(), amount });
    plan.push(
        Statement::Record {
            tx: TxRecord {
                id,
                sender_id: Some(sender_id.to_owned()),
                receiver_id: receiver_id.to_owned(),
                amount,
                memo: memo.to_owned(),
                timestamp,
            },
        },
    );
    assert(said(plan@) =~= moving(sender_id@, receiver_id@, amount, memo@, tx_id, timestamp));
    Ok(plan)
}

/// Decides on a transfer now. The identifier and the time are left open.
pub fn transfer(
    sender_id: &str,
    receiver_id: &str,
    amount: Double,
    memo: &str,
    standing: &Standing,
) -> (plan: Result<Vec<Statement>, TransferError>)
    ensures
        match plan {
            Ok(p) => objection(amount, *standing) is None && exists|id: Seq<char>, timestamp: i64|
                id::identifies(id) && said(p@) == #[trigger] moving(
                    sender_id@,
                    receiver_id@,
                    amount,
                    memo@,
                    id,
                    timestamp,
                ),
            Err(e) => objection(amount, *standing) == Some(e),
        },
{
    let id = id::fresh_id();
    let timestamp: i64 = now_ts();
    let ghost tx_id = id@;
    let plan = transfer_at(sender_id, receiver_id, amount, memo, standing, id, timestamp);
    assert(plan matches Ok(p) ==> id::identifies(tx_id) && said(p@) == moving(
        sender_id@,
        receiver_id@,
        amount,
        memo@,
        tx_id,
        timestamp,
    ));
    plan
}

impl TransferError {
    /// What the sender is told, given the balance and the amount.
    pub open spec fn told(self, balance: Double, amount: Double) -> Seq<char> {
        match self {
            TransferError::NotPositive => "Amount must be greater than zero."@,
            TransferError::Insufficient => "Insufficient balance. You have "@
                + double::four_places(balance) + " CC, tried to send "@ + double::four_places(
                amount,
            ) + " CC."@,
            TransferError::NoReceiver => "Receiver account not found."@,
            TransferError::NoSender => "Sender account not found."@,
        }
    }

    /// What the sender is told.
    pub fn message(&self, balance: Double, amount: Double) -> (s: String)
        ensures
            s@ == self.told(balance, amount),
    {
        match self {
            TransferError::NotPositive => "Amount must be greater than zero.".to_owned(),
            TransferError::Insufficient => {
                let mut s = "Insufficient balance. You have ".to_owned();
                s.append(balance.to_four_places().as_str());
                s.append(" CC, tried to send ");
                s.append(amount.to_four_places().as_str());
                s.append(" CC.");
                s
            },
            TransferError::NoReceiver => "Receiver account not found.".to_owned(),
            TransferError::NoSender => "Sender account not found.".to_owned(),
        }
    }
}

// ---- What the books come to ----------------------------------------------------------------------

/// The books in exact numbers: what each account holds, in the unit of [`Double::value`], and the
/// transactions that were written down.
#[verifier::ext_equal]
pub struct Books {
    pub balances: Map<Seq<char>, int>,
    pub log: Seq<TxRecordView>,
}

/// The books after one statement; a balance that is not there is not changed.
pub open spec fn after(books: Books, statement: StatementView) -> Books {
    match statement {
        StatementView::EnsureRow { user_id } => if books.balances.contains_key(user_id) {
            books
        } else {
            Books { balances: books.balances.insert(user_id, 0), ..books }
        },
        StatementView::Raise { user_id, amount } => if books.balances.contains_key(user_id) {
            Books {
                balances: books.balances.insert(user_id, books.balances[user_id] + amount.value()),
                ..books
            }
        } else {
            books
        },
        StatementView::Lower { user_id, amount } => if books.balances.contains_key(user_id) {
            Books {
                balances: books.balances.insert(user_id, books.balances[user_id] - amount.value()),
                ..books
            }
        } else {
            books
        },
        StatementView::Record { tx } => Books { log: books.log.push(tx), ..books },
    }
}

/// The books after a list of statements.
pub open spec fn after_all(books: Books, plan: Seq<StatementView>) -> Books
    decreases plan.len(),
{
    if plan.len() == 0 {
        books
    } else {
        after(after_all(books, plan.drop_last()), plan.last())
    }
}

/// What an account holds: nothing where it has no balance.
pub open spec fn holding(books: Books, user_id: Seq<char>) -> int {
    if books.balances.contains_key(user_id) {
        books.balances[user_id]
    } else {
        0
    }
}

/// A transfer lowers what the sender holds by the amount and raises what the receiver holds by
/// it, changes nothing of any other account, and writes down one transaction.
pub proof fn law_transfer_moves_amount(
    books: Books,
    sender_id: Seq<char>,
    receiver_id: Seq<char>,
    amount: Double,
    memo: Seq<char>,
    id: Seq<char>,
    timestamp: i64,
    user_id: Seq<char>,
)
    requires
        books.balances.contains_key(sender_id),
    ensures
        ({
            let moved = after_all(
                books,
                moving(sender_id, receiver_id, amount, memo, id, timestamp),
            );
            &&& holding(moved, user_id) == holding(books, user_id) - (if user_id == sender_id {
                amount.value()
            } else {
                0
            }) + (if user_id == receiver_id {
                amount.value()
            } else {
                0
            })
            &&& moved.balances.dom() == books.balances.dom().insert(receiver_id)
            &&& moved.log == books.log.push(
                TxRecordView {
                    id,
                    sender_id: Some(sender_id),
                    receiver_id,
                    amount,
                    memo,
                    timestamp,
                },
            )
        }),
{
    let plan = moving(sender_id, receiver_id, amount, memo, id, timestamp);
    assert(plan.drop_last() =~= plan.take(3));
    assert(plan.take(3).drop_last() =~= plan.take(2));
    assert(plan.take(2).drop_last() =~= plan.take(1));
    assert(plan.take(1).drop_last() =~= plan.take(0));
    assert(after_all(books, plan.take(0)) == books);
    assert(after_all(books, plan.take(1)) == after(books, plan[0]));
    assert(after_all(books, plan.take(2)) == after(after_all(books, plan.take(1)), plan[1]));
    assert(after_all(books, plan.take(3)) == after(after_all(books, plan.take(2)), plan[2]));
    assert(after_all(books, plan) == after(after_all(books, plan.take(3)), plan[3]));
    assert(after_all(books, plan).balances.dom() =~= books.balances.dom().insert(receiver_id));
}

/// A transfer between two accounts leaves what they hold together as it was.
pub proof fn law_transfer_keeps_the_sum(
    books: Books,
    sender_id: Seq<char>,
    receiver_id: Seq<char>,
    amount: Double,
    memo: Seq<char>,
    id: Seq<char>,
    timestamp: i64,
)
    requires
        books.balances.contains_key(sender_id),
        sender_id != receiver_id,
    ensures
        ({
            let moved = after_all(
                books,
                moving(sender_id, receiver_id, amount, memo, id, timestamp),
            );
            holding(moved, sender_id) + holding(moved, receiver_id) == holding(books, sender_id)
                + holding(books, receiver_id)
        }),
{
    law_transfer_moves_amount(
        books,
        sender_id,
        receiver_id,
        amount,
        memo,
        id,
        timestamp,
        sender_id,
    );
    law_transfer_moves_amount(
        books,
        sender_id,
        receiver_id,
        amount,
        memo,
        id,
        timestamp,
        receiver_id,
    );
}

/// What some accounts hold together.
pub open spec fn held_together(books: Books, user_ids: Seq<Seq<char>>) -> int
    decreases user_ids.len(),
{
    if user_ids.len() == 0 {
        0
    } else {
        held_together(books, user_ids.drop_last()) + holding(books, user_ids.last())
    }
}

/// A transfer takes the amount from what some accounts hold together where the sender is one of
/// them, and adds it where the receiver is.
proof fn lemma_transfer_among(
    books: Books,
    sender_id: Seq<char>,
    receiver_id: Seq<char>,
    amount: Double,
    memo: Seq<char>,
    id: Seq<char>,
    timestamp: i64,
    user_ids: Seq<Seq<char>>,
)
    requires
        books.balances.contains_key(sender_id),
        user_ids.no_duplicates(),
    ensures
        held_together(
            after_all(books, moving(sender_id, receiver_id, amount, memo, id, timestamp)),
            user_ids,
        ) == held_together(books, user_ids) - (if user_ids.contains(sender_id) {
            amount.value()
        } else {
            0
        }) + (if user_ids.contains(receiver_id) {
            amount.value()
        } else {
            0
        }),
    decreases user_ids.len(),
{
    if user_ids.len() > 0 {
        let front = user_ids.drop_last();
        let last = user_ids.last();
        lemma_transfer_among(
            books,
            sender_id,
            receiver_id,
            amount,
            memo,
            id,
            timestamp,
            front,
        );
        law_transfer_moves_amount(
            books,
            sender_id,
            receiver_id,
            amount,
            memo,
            id,
            timestamp,
            last,
        );
        assert(!front.contains(last));
        assert forall|u: Seq<char>| #[trigger] user_ids.contains(u) == (front.contains(u) || u
            == last) by {
            if user_ids.contains(u) {
                let i = choose|i: int| 0 <= i < user_ids.len() && user_ids[i] == u;
                if i < front.len() {
                    assert(front[i] == u);
                }
            }
            if front.contains(u) {
                let i = choose|i: int| 0 <= i < front.len() && front[i] == u;
                assert(user_ids[i] == u);
            }
            if u == last {
                assert(user_ids[user_ids.len() - 1] == u);
            }
        }
    }
}

/// A transfer creates no coins and destroys none: what all accounts hold together stays as it was,
/// also where somebody sends to themselves. All accounts are any list without repetition that has
/// the sender and the receiver in it.
pub proof fn law_transfer_keeps_the_sum_of_all(
    books: Books,
    sender_id: Seq<char>,
    receiver_id: Seq<char>,
    amount: Double,
    memo: Seq<char>,
    id: Seq<char>,
    timestamp: i64,
    user_ids: Seq<Seq<char>>,
)
    requires
        books.balances.contains_key(sender_id),
        user_ids.no_duplicates(),
        user_ids.contains(sender_id),
        user_ids.contains(receiver_id),
    ensures
        held_together(
            after_all(books, moving(sender_id, receiver_id, amount, memo, id, timestamp)),
            user_ids,
        ) == held_together(books, user_ids),
{
    lemma_transfer_among(
        books,
        sender_id,
        receiver_id,
        amount,
        memo,
        id,
        timestamp,
        user_ids,
    );
}

/// A transfer that is not refused leaves the sender with no less than nothing, where the balance
/// that was read is the one in the books.
pub proof fn law_nobody_is_overdrawn(
    books: Books,
    sender_id: Seq<char>,
    receiver_id: Seq<char>,
    amount: Double,
    memo: Seq<char>,
    standing: Standing,
    id: Seq<char>,
    timestamp: i64,
)
    requires
        objection(amount, standing) is None,
        !amount.is_nan(),
        standing.balance matches Some(b) && !b.is_nan() && books.balances.contains_key(sender_id)
            && books.balances[sender_id] == b.value(),
    ensures
        holding(
            after_all(books, moving(sender_id, receiver_id, amount, memo, id, timestamp)),
            sender_id,
        ) >= 0,
{
    law_transfer_moves_amount(
        books,
        sender_id,
        receiver_id,
        amount,
        memo,
        id,
        timestamp,
        sender_id,
    );
    lemma_positive(amount);
}

/// An amount that is not at most zero is above it.
proof fn lemma_positive(amount: Double)
    requires
        !amount.is_nan(),
        !amount.at_most(Double { bits: 0 }),
    ensures
        amount.value() > 0,
{
    let zero = Double { bits: 0 };
    assert(zero.value() == 0);
    assert(!zero.is_nan());
}

/// A credit raises what the receiver holds by the amount, changes nothing of any other account, and
/// writes down one transaction.
pub proof fn law_credit_raises_balance(
    books: Books,
    receiver_id: Seq<char>,
    amount: Double,
    memo: Seq<char>,
    id: Seq<char>,
    timestamp: i64,
    user_id: Seq<char>,
)
    ensures
        ({
            let credited = after_all(books, crediting(receiver_id, amount, memo, id, timestamp));
            &&& holding(credited, user_id) == holding(books, user_id) + (if user_id == receiver_id {
                amount.value()
            } else {
                0
            })
            &&& credited.balances.dom() == books.balances.dom().insert(receiver_id)
            &&& credited.log == books.log.push(
                TxRecordView { id, sender_id: None, receiver_id, amount, memo, timestamp },
            )
        }),
{
    let plan = crediting(receiver_id, amount, memo, id, timestamp);
    assert(plan.drop_last() =~= plan.take(2));
    assert(plan.take(2).drop_last() =~= plan.take(1));
    assert(plan.take(1).drop_last() =~= plan.take(0));
    assert(after_all(books, plan.take(0)) == books);
    assert(after_all(books, plan.take(1)) == after(books, plan[0]));
    assert(after_all(books, plan.take(2)) == after(after_all(books, plan.take(1)), plan[1]));
    assert(after_all(books, plan) == after(after_all(books, plan.take(2)), plan[2]));
    assert(after_all(books, plan).balances.dom() =~= books.balances.dom().insert(receiver_id));
}

// ---- Rewards -------------------------------------------------------------------------------------

/// What all miners together hash in a second.
pub open spec fn hashrate_sum(miners: Seq<(String, u64)>) -> nat
    decreases miners.len(),
{
    if miners.len() == 0 {
        0
    } else {
        hashrate_sum(miners.drop_last()) + miners.last().1 as nat
    }
}

/// The sum over some of the miners is at most that over all.
proof fn lemma_hashrate_sum(miners: Seq<(String, u64)>, k: int)
    requires
        0 <= k <= miners.len(),
    ensures
        hashrate_sum(miners.take(k)) <= hashrate_sum(miners),
    decreases miners.len() - k,
{
    if k < miners.len() {
        lemma_hashrate_sum(miners, k + 1);
        assert(miners.take(k + 1).drop_last() =~= miners.take(k));
    } else {
        assert(miners.take(k) =~= miners);
    }
}

/// Whether what all miners together hash in a second can be counted.
pub fn hashrates_fit(miners: &Vec<(String, u64)>) -> (yes: bool)
    ensures
        yes == (hashrate_sum(miners@) <= u64::MAX),
{
    let mut sum: u64 = 0;
    let mut i: usize = 0;
    assert(miners@.take(0) =~= seq![]);
    while i < miners.len()
        invariant
            i <= miners@.len(),
            sum == hashrate_sum(miners@.take(i as int)),
        decreases miners@.len() - i,
    {
        proof {
            lemma_hashrate_sum(miners@, i + 1);
            assert(miners@.take(i + 1).drop_last() =~= miners@.take(i as int));
            assert(miners@.take(i + 1).last() == miners@[i as int]);
        }
        match sum.checked_add(miners[i].1) {
            Some(s) => {
                sum = s;
            },
            None => {
                return false;
            },
        }
        i = i + 1;
    }
    assert(miners@.take(i as int) =~= miners@);
    true
}

/// What all miners together hash in a second.
pub fn total_hashrate(miners: &Vec<(String, u64)>) -> (total: u64)
    requires
        hashrate_sum(miners@) <= u64::MAX,
    ensures
        total == hashrate_sum(miners@),
{
    let mut total: u64 = 0;
    let mut i: usize = 0;
    assert(miners@.take(0) =~= seq![]);
    while i < miners.len()
        invariant
            i <= miners@.len(),
            total == hashrate_sum(miners@.take(i as int)),
            hashrate_sum(miners@) <= u64::MAX,
        decreases miners@.len() - i,
    {
        proof {
            lemma_hashrate_sum(miners@, i + 1);
            assert(miners@.take(i + 1).drop_last() =~= miners@.take(i as int));
            assert(miners@.take(i + 1).last() == miners@[i as int]);
        }
        total = total + miners[i].1;
        i = i + 1;
    }
    assert(miners@.take(i as int) =~= miners@);
    total
}

/// A miner's part of a reward.
pub struct Portion {
    /// The part, to four places.
    pub amount: Double,
    /// What part of the whole it is, in percent to one place.
    pub percent: String,
}

/// What is paid to a miner.
pub struct Payment {
    pub user_id: String,
    pub amount: Double,
    pub memo: String,
}

/// What is paid to a miner.
#[verifier::ext_equal]
pub struct PaymentView {
    pub user_id: Seq<char>,
    pub amount: Double,
    pub memo: Seq<char>,
}

impl View for Payment {
    type V = PaymentView;

    open spec fn view(&self) -> PaymentView {
        PaymentView { user_id: self.user_id@, amount: self.amount, memo: self.memo@ }
    }
}

/// What is written beside a payment.
pub open spec fn reward_memo(block_index: u64, percent: Seq<char>) -> Seq<char> {
    "Mining reward block #"@ + text::decimal(block_index as nat) + " ("@ + percent
        + "% hashrate share)"@
}

/// Whether a miner is paid: whoever hashes, and is owed more than nothing.
pub open spec fn is_paid(miner: (String, u64), portion: Portion) -> bool {
    miner.1 != 0 && !portion.amount.at_most(Double { bits: 0 })
}

/// What is paid to one miner.
pub open spec fn payment(miner: (String, u64), portion: Portion, block_index: u64) -> PaymentView {
    PaymentView {
        user_id: miner.0@,
        amount: portion.amount,
        memo: reward_memo(block_index, portion.percent@),
    }
}

/// What is paid to the miners of a block, in the order of the miners.
pub open spec fn payments(
    miners: Seq<(String, u64)>,
    portions: Seq<Portion>,
    block_index: u64,
) -> Seq<PaymentView>
    decreases miners.len(),
{
    if miners.len() == 0 {
        seq![]
    } else {
        let before = payments(miners.drop_last(), portions, block_index);
        let portion = portions[miners.len() - 1];
        if is_paid(miners.last(), portion) {
            before.push(payment(miners.last(), portion, block_index))
        } else {
            before
        }
    }
}

/// What is paid to the miners of a block, given each miner's part of the reward.
pub fn distribute_reward(
    miners: &Vec<(String, u64)>,
    portions: &Vec<Portion>,
    block_index: u64,
) -> (paid: Vec<Payment>)
    requires
        portions@.len() == miners@.len(),
    ensures
        paid@.map_values(|p: Payment| p@) == payments(miners@, portions@, block_index),
{
    let mut paid: Vec<Payment> = Vec::new();
    let zero = Double { bits: 0 };
    let mut i: usize = 0;
    assert(miners@.take(0) =~= seq![]);
    assert(paid@.map_values(|p: Payment| p@) =~= seq![]);
    while i < miners.len()
        invariant
            i <= miners@.len(),
            portions@.len() == miners@.len(),
            zero == (Double { bits: 0 }),
            paid@.map_values(|p: Payment| p@) == payments(
                miners@.take(i as int),
                portions@,
                block_index,
            ),
        decreases miners@.len() - i,
    {
        let ghost so_far = paid@.map_values(|p: Payment| p@);
        assert(miners@.take(i + 1).drop_last() =~= miners@.take(i as int));
        assert(miners@.take(i + 1).last() == miners@[i as int]);
        if miners[i].1 != 0 && !portions[i].amount.at_most_as(&zero) {
            let mut memo = "Mining reward block #".to_owned();
            memo.append(text::u64_text(block_index).as_str());
            memo.append(" (");
            memo.append(portions[i].percent.as_str());
            memo.append("% hashrate share)");
            let p = Payment { user_id: miners[i].0.clone(), amount: portions[i].amount, memo };
            let ghost view = p@;
            paid.push(p);
            assert(paid@.map_values(|p: Payment| p@) =~= so_far.push(view));
        }
        i = i + 1;
    }
    assert(miners@.take(i as int) =~= miners@);
    paid
}

/// Who was credited how much: the payments that went through, in order.
pub open spec fn went_through(paid: Seq<PaymentView>, done: Seq<bool>) -> Seq<(Seq<char>, Double)>
    decreases paid.len(),
{
    if paid.len() == 0 {
        seq![]
    } else {
        let before = went_through(paid.drop_last(), done);
        if done[paid.len() - 1] {
            before.push((paid.last().user_id, paid.last().amount))
        } else {
            before
        }
    }
}

/// Who was credited how much, given which payments went through.
pub fn credited(paid: &Vec<Payment>, done: &Vec<bool>) -> (list: Vec<(String, Double)>)
    requires
        done@.len() == paid@.len(),
    ensures
        list@.map_values(|c: (String, Double)| (c.0@, c.1)) == went_through(
            paid@.map_values(|p: Payment| p@),
            done@,
        ),
{
    let ghost all = paid@.map_values(|p: Payment| p@);
    let mut list: Vec<(String, Double)> = Vec::new();
    let mut i: usize = 0;
    assert(all.take(0) =~= seq![]);
    assert(list@.map_values(|c: (String, Double)| (c.0@, c.1)) =~= seq![]);
    while i < paid.len()
        invariant
            i <= paid@.len(),
            done@.len() == paid@.len(),
            all == paid@.map_values(|p: Payment| p@),
            list@.map_values(|c: (String, Double)| (c.0@, c.1)) == went_through(
                all.take(i as int),
                done@,
            ),
        decreases paid@.len() - i,
    {
        let ghost so_far = list@.map_values(|c: (String, Double)| (c.0@, c.1));
        assert(all.take(i + 1).drop_last() =~= all.take(i as int));
        assert(all.take(i + 1).last() == paid@[i as int]@);
        if done[i] {
            list.push((paid[i].user_id.clone(), paid[i].amount));
            assert(list@.map_values(|c: (String, Double)| (c.0@, c.1)) =~= so_far.push(
                (all[i as int].user_id, all[i as int].amount),
            ));
        }
        i = i + 1;
    }
    assert(all.take(i as int) =~= all);
    list
}

/// Only miners that hash are paid, each its own part, which is above nothing or no number at all.
pub proof fn law_only_miners_are_paid(
    miners: Seq<(String, u64)>,
    portions: Seq<Portion>,
    block_index: u64,
    i: int,
) -> (k: int)
    requires
        portions.len() >= miners.len(),
        0 <= i < payments(miners, portions, block_index).len(),
    ensures
        i <= k < miners.len(),
        is_paid(miners[k], portions[k]),
        payments(miners, portions, block_index)[i] == payment(miners[k], portions[k], block_index),
    decreases miners.len(),
{
    let front = miners.drop_last();
    let before = payments(front, portions, block_index);
    if i < before.len() {
        law_only_miners_are_paid(front, portions, block_index, i)
    } else {
        lemma_payments_len(front, portions, block_index);
        miners.len() - 1
    }
}

/// At most one payment is made to each miner.
proof fn lemma_payments_len(miners: Seq<(String, u64)>, portions: Seq<Portion>, block_index: u64)
    ensures
        payments(miners, portions, block_index).len() <= miners.len(),
    decreases miners.len(),
{
    if miners.len() > 0 {
        lemma_payments_len(miners.drop_last(), portions, block_index);
    }
}

/// Every miner that hashes and is owed something is paid.
pub proof fn law_every_miner_is_paid(
    miners: Seq<(String, u64)>,
    portions: Seq<Portion>,
    block_index: u64,
    k: int,
)
    requires
        portions.len() >= miners.len(),
        0 <= k < miners.len(),
        is_paid(miners[k], portions[k]),
    ensures
        payments(miners, portions, block_index).contains(
            payment(miners[k], portions[k], block_index),
        ),
    decreases miners.len(),
{
    let front = miners.drop_last();
    let before = payments(front, portions, block_index);
    let all = payments(miners, portions, block_index);
    if k < front.len() {
        law_every_miner_is_paid(front, portions, block_index, k);
        let j = choose|j: int|
            0 <= j < before.len() && before[j] == payment(miners[k], portions[k], block_index);
        assert(all[j] == before[j]);
    } else {
        assert(all[before.len() as int] == payment(miners[k], portions[k], block_index));
    }
}

// ---- History -------------------------------------------------------------------------------------

/// The transactions among the rows of the books that could be read, in order.
pub open spec fn readable(rows: Seq<Option<TxRecord>>) -> Seq<TxRecord>
    decreases rows.len(),
{
    if rows.len() == 0 {
        seq![]
    } else {
        match rows.last() {
            Some(tx) => readable(rows.drop_last()).push(tx),
            None => readable(rows.drop_last()),
        }
    }
}

/// The transactions among the rows of the books; a row that could not be read is left out.
pub fn get_transactions(rows: Vec<Option<TxRecord>>) -> (txs: Vec<TxRecord>)
    ensures
        txs@ == readable(rows@),
{
    let ghost all = rows@;
    let mut txs: Vec<TxRecord> = Vec::new();
    assert(all.take(0) =~= seq![]);
    for row in it: rows
        invariant
            it.seq() == all,
            txs@ == readable(all.take(it.index() as int)),
    {
        assert(all.take(it.index() + 1).drop_last() =~= all.take(it.index() as int));
        assert(all.take(it.index() + 1).last() == row);
        match row {
            Some(tx) => txs.push(tx),
            None => {},
        }
    }
    assert(all.take(all.len() as int) =~= all);
    txs
}

// ---- When transfers go through ---------------------------------------------------------------------

/// A transfer that is covered goes through, whatever the amount: where it is above nothing and no
/// more than the sender's balance, and both accounts are known, nothing is objected.
pub proof fn law_covered_transfer_goes_through(amount: Double, standing: Standing)
    requires
        !amount.is_nan(),
        amount.value() > 0,
        standing.balance matches Some(b) && !b.is_nan() && b.value() >= amount.value(),
        standing.receivers matches Some(n) && n > 0,
        standing.senders matches Some(n) && n > 0,
    ensures
        objection(amount, standing) is None,
{
    double::law_numbers_are_ordered(amount, Double { bits: 0 });
}

/// A transfer is refused for a reason that holds, and for the first that does: the amount is not
/// above nothing; the balance, nothing where there is none, is less than the amount; the receiver is
/// not known; the sender is not known. Where none holds it is not refused.
pub proof fn law_refusals_have_their_reason(amount: Double, standing: Standing)
    requires
        !amount.is_nan(),
        standing.balance matches Some(b) ==> !b.is_nan(),
    ensures
        ({
            let balance = match standing.balance {
                Some(b) => b.value(),
                None => 0,
            };
            let receiver = standing.receivers matches Some(n) && n > 0;
            let sender = standing.senders matches Some(n) && n > 0;
            let why = objection(amount, standing);
            &&& why == Some(TransferError::NotPositive) <==> amount.value() <= 0
            &&& why == Some(TransferError::Insufficient) <==> amount.value() > 0 && balance
                < amount.value()
            &&& why == Some(TransferError::NoReceiver) <==> 0 < amount.value() <= balance
                && !receiver
            &&& why == Some(TransferError::NoSender) <==> 0 < amount.value() <= balance && receiver
                && !sender
            &&& why is None <==> 0 < amount.value() <= balance && receiver && sender
        }),
{
    double::law_numbers_are_ordered(amount, Double { bits: 0 });
}

/// Where the amount or the balance is no number, only unknown accounts stand in the way, or an amount
/// that is not above nothing.
pub proof fn law_what_is_no_number_is_not_compared(amount: Double, standing: Standing)
    requires
        amount.is_nan() || (standing.balance matches Some(b) && b.is_nan()),
    ensures
        ({
            let receiver = standing.receivers matches Some(n) && n > 0;
            let sender = standing.senders matches Some(n) && n > 0;
            let why = objection(amount, standing);
            &&& why == Some(TransferError::NotPositive) <==> !amount.is_nan() && amount.value() <= 0
            &&& why != Some(TransferError::Insufficient)
            &&& amount.is_nan() || amount.value() > 0 ==> {
                &&& why == Some(TransferError::NoReceiver) <==> !receiver
                &&& why == Some(TransferError::NoSender) <==> receiver && !sender
                &&& why is None <==> receiver && sender
            }
        }),
{
    double::law_numbers_are_ordered(amount, Double { bits: 0 });
}

/// What a sender without enough is told names the balance first and then the amount, both to four
/// places; the other refusals are told in fixed words.
pub proof fn law_refusals_are_told(balance: Double, amount: Double)
    ensures
        TransferError::NotPositive.told(balance, amount) == "Amount must be greater than zero."@,
        TransferError::Insufficient.told(balance, amount) == "Insufficient balance. You have "@
            + double::four_places(balance) + " CC, tried to send "@ + double::four_places(amount)
            + " CC."@,
        TransferError::NoReceiver.told(balance, amount) == "Receiver account not found."@,
        TransferError::NoSender.told(balance, amount) == "Sender account not found."@,
{
}

/// A transfer is written down once, as what it is: from the sender to the receiver, with the amount,
/// the words, the name and the time that were given. It lowers before it raises, and touches nobody
/// else.
pub proof fn law_transfer_is_written_down(
    sender_id: Seq<char>,
    receiver_id: Seq<char>,
    amount: Double,
    memo: Seq<char>,
    id: Seq<char>,
    timestamp: i64,
)
    ensures
        ({
            let plan = moving(sender_id, receiver_id, amount, memo, id, timestamp);
            &&& plan.len() == 4
            &&& plan[0] == (StatementView::Lower { user_id: sender_id, amount })
            &&& plan[1] == (StatementView::EnsureRow { user_id: receiver_id })
            &&& plan[2] == (StatementView::Raise { user_id: receiver_id, amount })
            &&& plan[3] matches StatementView::Record { tx } && {
                &&& tx.id == id
                &&& tx.sender_id == Some(sender_id)
                &&& tx.receiver_id == receiver_id
                &&& tx.amount == amount
                &&& tx.memo == memo
                &&& tx.timestamp == timestamp
            }
        }),
{
}

/// A credit is written down once, as a sum from nobody to the receiver.
pub proof fn law_credit_is_written_down(
    receiver_id: Seq<char>,
    amount: Double,
    memo: Seq<char>,
    id: Seq<char>,
    timestamp: i64,
)
    ensures
        ({
            let plan = crediting(receiver_id, amount, memo, id, timestamp);
            &&& plan.len() == 3
            &&& plan[0] == (StatementView::EnsureRow { user_id: receiver_id })
            &&& plan[1] == (StatementView::Raise { user_id: receiver_id, amount })
            &&& plan[2] matches StatementView::Record { tx } && {
                &&& tx.id == id
                &&& tx.sender_id is None
                &&& tx.receiver_id == receiver_id
                &&& tx.amount == amount
                &&& tx.memo == memo
                &&& tx.timestamp == timestamp
            }
        }),
{
}

/// What statements do to a balance: opening one leaves what is there and else holds nothing, raising
/// and lowering move it by the amount and leave all others, and writing down moves nothing.
pub proof fn law_statements_do_what_they_say(
    books: Books,
    user_id: Seq<char>,
    amount: Double,
    tx: TxRecordView,
    other: Seq<char>,
)
    ensures
        ({
            let opened = after(books, StatementView::EnsureRow { user_id });
            let raised = after(books, StatementView::Raise { user_id, amount });
            let lowered = after(books, StatementView::Lower { user_id, amount });
            let noted = after(books, StatementView::Record { tx });
            &&& opened.balances.contains_key(user_id)
            &&& holding(opened, other) == holding(books, other)
            &&& opened.log == books.log && raised.log == books.log && lowered.log == books.log
            &&& books.balances.contains_key(user_id) ==> holding(raised, user_id) == holding(
                books,
                user_id,
            ) + amount.value() && holding(lowered, user_id) == holding(books, user_id)
                - amount.value()
            &&& other != user_id ==> holding(raised, other) == holding(books, other) && holding(
                lowered,
                other,
            ) == holding(books, other)
            &&& noted.balances == books.balances
            &&& noted.log == books.log.push(tx)
        }),
{
}

// ---- Who is paid -------------------------------------------------------------------------------------

/// Every miner that hashes and whose part is above nothing is paid that part, however large it is,
/// with a note of the block and the share.
pub proof fn law_every_part_above_nothing_is_paid(
    miners: Seq<(String, u64)>,
    portions: Seq<Portion>,
    block_index: u64,
    k: int,
)
    requires
        portions.len() >= miners.len(),
        0 <= k < miners.len(),
        miners[k].1 != 0,
        !portions[k].amount.is_nan(),
        portions[k].amount.value() > 0,
    ensures
        payments(miners, portions, block_index).contains(
            PaymentView {
                user_id: miners[k].0@,
                amount: portions[k].amount,
                memo: "Mining reward block #"@ + text::decimal(block_index as nat) + " ("@
                    + portions[k].percent@ + "% hashrate share)"@,
            },
        ),
{
    double::law_numbers_are_ordered(portions[k].amount, Double { bits: 0 });
    law_every_miner_is_paid(miners, portions, block_index, k);
}

/// The payments follow the miners one by one: nobody, no payments; one more miner, one more payment
/// at the end where it hashes and its part is not a number that is nothing or less, and else none.
pub proof fn law_payments_follow_the_miners(
    miners: Seq<(String, u64)>,
    miner: (String, u64),
    portions: Seq<Portion>,
    block_index: u64,
)
    requires
        portions.len() > miners.len(),
    ensures
        payments(seq![], portions, block_index) == Seq::<PaymentView>::empty(),
        ({
            let part = portions[miners.len() as int];
            let before = payments(miners, portions, block_index);
            payments(miners.push(miner), portions, block_index) == (if miner.1 == 0 || (
            !part.amount.is_nan() && part.amount.value() <= 0) {
                before
            } else {
                before.push(
                    PaymentView {
                        user_id: miner.0@,
                        amount: part.amount,
                        memo: "Mining reward block #"@ + text::decimal(block_index as nat) + " ("@
                            + part.percent@ + "% hashrate share)"@,
                    },
                )
            })
        }),
{
    double::law_numbers_are_ordered(portions[miners.len() as int].amount, Double { bits: 0 });
    assert(miners.push(miner).drop_last() =~= miners);
}

/// The hash rates are added up one by one.
pub proof fn law_hash_rates_add_up(miners: Seq<(String, u64)>, miner: (String, u64))
    ensures
        hashrate_sum(seq![]) == 0,
        hashrate_sum(miners.push(miner)) == hashrate_sum(miners) + miner.1,
{
    assert(miners.push(miner).drop_last() =~= miners);
}

/// The list of who was credited follows the payments one by one: one that went through is listed
/// with its account and amount, and one that did not is left out.
pub proof fn law_credits_follow_the_payments(
    paid: Seq<PaymentView>,
    p: PaymentView,
    done: Seq<bool>,
)
    requires
        done.len() > paid.len(),
    ensures
        went_through(seq![], done) == Seq::<(Seq<char>, Double)>::empty(),
        went_through(paid.push(p), done) == (if done[paid.len() as int] {
            went_through(paid, done).push((p.user_id, p.amount))
        } else {
            went_through(paid, done)
        }),
{
    assert(paid.push(p).drop_last() =~= paid);
}

/// The history follows the rows one by one: a row that was read is kept as it is, and one that was
/// not is left out.
pub proof fn law_history_follows_the_rows(rows: Seq<Option<TxRecord>>, tx: TxRecord)
    ensures
        readable(seq![]) == Seq::<TxRecord>::empty(),
        readable(rows.push(Some(tx))) == readable(rows).push(tx),
        readable(rows.push(None)) == readable(rows),
{
    assert(rows.push(Some(tx)).drop_last() =~= rows);
    assert(rows.push(None).drop_last() =~= rows);
}

} // verus!
