//! The wallet: what its menu offers, how a payment is put together, and how the history reads.

use crate::db::TxRecord;
use crate::double;
use crate::double::Double;
use crate::text;
use vstd::prelude::*;
use vstd::string::StringExecFns;

verus! {

/// How many transactions the history shows.
pub const HISTORY_LEN: usize = 20;

// ---- Menu ----------------------------------------------------------------------------------

/// What the menu leads to.
#[derive(Clone, Copy, Debug, PartialEq, Eq, Structural)]
pub enum WalletChoice {
    Send,
    History,
    Lookup,
    Back,
}

/// What an answer to the menu leads to; whatever the menu does not offer leads back.
pub open spec fn chosen(answer: Seq<char>) -> WalletChoice {
    let t = text::trimmed(answer);
    if t == "1"@ {
        WalletChoice::Send
    } else if t == "2"@ {
        WalletChoice::History
    } else if t == "3"@ {
        WalletChoice::Lookup
    } else {
        WalletChoice::Back
    }
}

/// What an answer to the menu leads to.
pub fn read_choice(answer: &str) -> (choice: WalletChoice)
    ensures
        choice == chosen(answer@),
{
    let t = text::trim(answer);
    if text::same_text(t, "1") {
        WalletChoice::Send
    } else if text::same_text(t, "2") {
        WalletChoice::History
    } else if text::same_text(t, "3") {
        WalletChoice::Lookup
    } else {
        WalletChoice::Back
    }
}

/// The balance that is shown: that of the server where it is there and knows one, else the one on
/// this machine.
pub open spec fn balance_shown(online: bool, server: Option<Double>, local: Double) -> Double {
    match server {
        Some(b) => if online {
            b
        } else {
            local
        },
        None => local,
    }
}

/// The balance that is shown.
pub fn shown_balance(online: bool, server: Option<Double>, local: Double) -> (balance: Double)
    ensures
        balance == (if online && server is Some {
            server->0
        } else {
            local
        }),
        balance == balance_shown(online, server, local),
{
    match server {
        Some(b) => if online { b } else { local },
        None => local,
    }
}

// ---- Sending -------------------------------------------------------------------------------

/// How far a payment has come.
pub enum Sending {
    /// The server is to be reached: the balances live there.
    CheckServer,
    /// The recipient is asked for.
    AskRecipient,
    /// The account of the recipient is looked up.
    LookUp { recipient: String },
    /// The amount is asked for.
    AskAmount { recipient: String, receiver_id: String },
    /// The sender is asked to confirm.
    Confirm { recipient: String, receiver_id: String, amount: Double },
    /// The payment is to be made.
    Transfer { recipient: String, receiver_id: String, amount: Double, memo: String },
    /// The payment is not made.
    Ended { why: NotSent },
}

/// Why a payment is not made.
#[derive(Clone, Copy, Debug, PartialEq, Eq, Structural)]
pub enum NotSent {
    Unreachable,
    Cancelled,
    ToYourself,
    NoAccount,
    InvalidAmount,
}

/// How far a payment has come.
#[verifier::ext_equal]
pub enum SendingView {
    CheckServer,
    AskRecipient,
    LookUp { recipient: Seq<char> },
    AskAmount { recipient: Seq<char>, receiver_id: Seq<char> },
    Confirm { recipient: Seq<char>, receiver_id: Seq<char>, amount: Double },
    Transfer { recipient: Seq<char>, receiver_id: Seq<char>, amount: Double, memo: Seq<char> },
    Ended { why: NotSent },
}

impl View for Sending {
    type V = SendingView;

    open spec fn view(&self) -> SendingView {
        match *self {
            Sending::CheckServer => SendingView::CheckServer,
            Sending::AskRecipient => SendingView::AskRecipient,
            Sending::LookUp { recipient } => SendingView::LookUp { recipient: recipient@ },
            Sending::AskAmount { recipient, receiver_id } => SendingView::AskAmount {
                recipient: recipient@,
                receiver_id: receiver_id@,
            },
            Sending::Confirm { recipient, receiver_id, amount } => SendingView::Confirm {
                recipient: recipient@,
                receiver_id: receiver_id@,
                amount,
            },
            Sending::Transfer { recipient, receiver_id, amount, memo } => SendingView::Transfer {
                recipient: recipient@,
                receiver_id: receiver_id@,
                amount,
                memo: memo@,
            },
            Sending::Ended { why } => SendingView::Ended { why },
        }
    }
}

/// What comes back while a payment is put together.
pub enum SendEvent {
    /// Whether the server was reached.
    Reached { yes: bool },
    /// What the sender typed.
    Typed { line: String },
    /// The account of the recipient, if there is one.
    Account { id: Option<String> },
    /// The amount that the sender typed, if it reads as a number.
    Amount { amount: Option<Double> },
}

/// What comes back while a payment is put together.
#[verifier::ext_equal]
pub enum SendEventView {
    Reached { yes: bool },
    Typed { line: Seq<char> },
    Account { id: Option<Seq<char>> },
    Amount { amount: Option<Double> },
}

impl View for SendEvent {
    type V = SendEventView;

    open spec fn view(&self) -> SendEventView {
        match *self {
            SendEvent::Reached { yes } => SendEventView::Reached { yes },
            SendEvent::Typed { line } => SendEventView::Typed { line: line@ },
            SendEvent::Account { id } => SendEventView::Account {
                id: match id {
                    Some(i) => Some(i@),
                    None => None,
                },
            },
            SendEvent::Amount { amount } => SendEventView::Amount { amount },
        }
    }
}

/// Whether an answer says yes.
pub open spec fn agreed(line: Seq<char>) -> bool {
    text::trimmed(line) == seq!['y'] || text::trimmed(line) == seq!['Y']
}

/// How a payment of the account with a given address goes on; what answers nothing that was asked
/// is passed over.
pub open spec fn sending_next(
    state: SendingView,
    event: SendEventView,
    own: Seq<char>,
) -> SendingView {
    match (state, event) {
        (SendingView::CheckServer, SendEventView::Reached { yes }) => if yes {
            SendingView::AskRecipient
        } else {
            SendingView::Ended { why: NotSent::Unreachable }
        },
        (SendingView::AskRecipient, SendEventView::Typed { line }) => {
            let recipient = text::normalized(line);
            if recipient.len() == 0 {
                SendingView::Ended { why: NotSent::Cancelled }
            } else if recipient == own {
                SendingView::Ended { why: NotSent::ToYourself }
            } else {
                SendingView::LookUp { recipient }
            }
        },
        (SendingView::LookUp { recipient }, SendEventView::Account { id }) => match id {
            Some(receiver_id) => SendingView::AskAmount { recipient, receiver_id },
            None => SendingView::Ended { why: NotSent::NoAccount },
        },
        (SendingView::AskAmount { recipient, receiver_id }, SendEventView::Amount { amount }) => {
            match amount {
                Some(a) => SendingView::Confirm { recipient, receiver_id, amount: a },
                None => SendingView::Ended { why: NotSent::InvalidAmount },
            }
        },
        (
            SendingView::Confirm { recipient, receiver_id, amount },
            SendEventView::Typed { line },
        ) => if agreed(line) {
            SendingView::Transfer {
                recipient,
                receiver_id,
                amount,
                memo: "Transfer to "@ + recipient,
            }
        } else {
            SendingView::Ended { why: NotSent::Cancelled }
        },
        _ => state,
    }
}

impl Sending {
    /// A payment that nothing is known of yet.
    pub fn new() -> (sending: Sending)
        ensures
            sending@ == SendingView::CheckServer,
    {
        Sending::CheckServer
    }

    /// How a payment of the account with a given address goes on.
    pub fn advance(self, event: SendEvent, own: &str) -> (next: Sending)
        ensures
            next@ == sending_next(self@, event@, own@),
    {
        match (self, event) {
            (Sending::CheckServer, SendEvent::Reached { yes }) => if yes {
                Sending::AskRecipient
            } else {
                Sending::Ended { why: NotSent::Unreachable }
            },
            (Sending::AskRecipient, SendEvent::Typed { line }) => {
                let recipient = text::normalize(line.as_str());
                if recipient.as_str().is_empty() {
                    Sending::Ended { why: NotSent::Cancelled }
                } else if text::same_text(recipient.as_str(), own) {
                    Sending::Ended { why: NotSent::ToYourself }
                } else {
                    Sending::LookUp { recipient }
                }
            },
            (Sending::LookUp { recipient }, SendEvent::Account { id }) => match id {
                Some(receiver_id) => Sending::AskAmount { recipient, receiver_id },
                None => Sending::Ended { why: NotSent::NoAccount },
            },
            (Sending::AskAmount { recipient, receiver_id }, SendEvent::Amount { amount }) => {
                match amount {
                    Some(a) => Sending::Confirm { recipient, receiver_id, amount: a },
                    None => Sending::Ended { why: NotSent::InvalidAmount },
                }
            },
            (Sending::Confirm { recipient, receiver_id, amount }, SendEvent::Typed { line }) => {
                if text::is_letter(line.as_str(), 'y', 'Y') {
                    let mut memo = "Transfer to ".to_owned();
                    memo.append(recipient.as_str());
                    Sending::Transfer { recipient, receiver_id, amount, memo }
                } else {
                    Sending::Ended { why: NotSent::Cancelled }
                }
            },
            (state, _) => state,
        }
    }
}

impl NotSent {
    /// What the sender is told.
    pub fn message(&self) -> (s: &'static str)
        ensures
            s@ == (match *self {
                NotSent::Unreachable => "Cannot send CC — server is not reachable."@,
                NotSent::Cancelled => "Cancelled."@,
                NotSent::ToYourself => "You can't send CC to yourself."@,
                NotSent::NoAccount => "No account found with that email."@,
                NotSent::InvalidAmount => "Invalid amount."@,
            }),
    {
        match self {
            NotSent::Unreachable => "Cannot send CC — server is not reachable.",
            NotSent::Cancelled => "Cancelled.",
            NotSent::ToYourself => "You can't send CC to yourself.",
            NotSent::NoAccount => "No account found with that email.",
            NotSent::InvalidAmount => "Invalid amount.",
        }
    }
}

/// How many answers a payment still needs at most.
pub open spec fn answers_left(state: SendingView) -> nat {
    match state {
        SendingView::CheckServer => 5,
        SendingView::AskRecipient => 4,
        SendingView::LookUp { .. } => 3,
        SendingView::AskAmount { .. } => 2,
        SendingView::Confirm { .. } => 1,
        SendingView::Transfer { .. } => 0,
        SendingView::Ended { .. } => 0,
    }
}

/// Whether the recipient that a payment names, if it names one, is somebody other than the sender.
pub open spec fn to_another(state: SendingView, own: Seq<char>) -> bool {
    match state {
        SendingView::LookUp { recipient } => recipient.len() > 0 && recipient != own,
        SendingView::AskAmount { recipient, .. } => recipient.len() > 0 && recipient != own,
        SendingView::Confirm { recipient, .. } => recipient.len() > 0 && recipient != own,
        SendingView::Transfer { recipient, .. } => recipient.len() > 0 && recipient != own,
        _ => true,
    }
}

/// Nobody sends to themselves: whatever comes back, a payment that names no one or another still
/// does.
pub proof fn law_nobody_pays_themselves(state: SendingView, event: SendEventView, own: Seq<char>)
    requires
        to_another(state, own),
    ensures
        to_another(sending_next(state, event, own), own),
{
}

/// A payment is made only once the sender has agreed to it, and it is the payment that the sender
/// was shown.
pub proof fn law_payments_are_confirmed(state: SendingView, event: SendEventView, own: Seq<char>)
    requires
        !(state is Transfer),
        sending_next(state, event, own) is Transfer,
    ensures
        event matches SendEventView::Typed { line } && agreed(line),
        state matches SendingView::Confirm { recipient, receiver_id, amount } && sending_next(
            state,
            event,
            own,
        ) == (SendingView::Transfer {
            recipient,
            receiver_id,
            amount,
            memo: "Transfer to "@ + recipient,
        }),
{
}

/// Putting a payment together comes to an end: whatever changes it brings it nearer.
pub proof fn law_sending_ends(state: SendingView, event: SendEventView, own: Seq<char>)
    ensures
        sending_next(state, event, own) == state || answers_left(sending_next(state, event, own))
            < answers_left(state),
{
}

// ---- History -------------------------------------------------------------------------------

/// Whether a transaction brought an account something.
pub open spec fn incoming(tx: crate::db::TxRecordView, user_id: Seq<char>) -> bool {
    tx.sender_id is None || tx.receiver_id == user_id
}

/// Whether a transaction brought an account something.
pub fn is_incoming(tx: &TxRecord, user_id: &str) -> (yes: bool)
    ensures
        yes == incoming(tx@, user_id@),
{
    match &tx.sender_id {
        None => true,
        Some(_) => text::same_text(tx.receiver_id.as_str(), user_id),
    }
}

/// A time as a rough date, in years of 365 days and months of 30, and a time of day.
pub open spec fn rough_date(secs: nat) -> Seq<char> {
    let days = secs / 86400;
    text::zero_filled(1970 + days / 365, 4) + "-"@ + text::zero_filled(days % 365 / 30 + 1, 2)
        + "-"@ + text::zero_filled(days % 365 % 30 + 1, 2) + " "@ + text::zero_filled(
        secs % 86400 / 3600,
        2,
    ) + ":"@ + text::zero_filled(secs % 3600 / 60, 2)
}

/// A time, in seconds since the Unix epoch, as a rough date and a time of day.
pub fn fmt_timestamp(ts: i64) -> (s: String)
    requires
        ts >= 0,
    ensures
        s@ == rough_date(ts as nat),
{
    let secs: u64 = ts as u64;
    let days: u64 = secs / 86400;
    let mut s = text::zero_filled_text(1970 + days / 365, 4);
    s.append("-");
    s.append(text::zero_filled_text(days % 365 / 30 + 1, 2).as_str());
    s.append("-");
    s.append(text::zero_filled_text(days % 365 % 30 + 1, 2).as_str());
    s.append(" ");
    s.append(text::zero_filled_text(secs % 86400 / 3600, 2).as_str());
    s.append(":");
    s.append(text::zero_filled_text(secs % 3600 / 60, 2).as_str());
    s
}

/// A line of the history of an account.
pub open spec fn history_text(tx: crate::db::TxRecordView, user_id: Seq<char>) -> Seq<char> {
    "  "@ + (if incoming(tx, user_id) {
        "+"@
    } else {
        "-"@
    }) + " "@ + double::four_places(tx.amount) + " CC  │  "@ + rough_date(tx.timestamp as nat)
        + "  │  "@ + tx.memo
}

/// A line of the history of an account.
pub fn history_line(tx: &TxRecord, user_id: &str) -> (s: String)
    requires
        tx.timestamp >= 0,
    ensures
        s@ == "  "@ + (if incoming(tx@, user_id@) {
            "+"@
        } else {
            "-"@
        }) + " "@ + double::four_places(tx.amount) + " CC  │  "@ + rough_date(tx.timestamp as nat)
            + "  │  "@ + tx.memo@,
        s@ == history_text(tx@, user_id@),
{
    let mut s = "  ".to_owned();
    s.append(if is_incoming(tx, user_id) { "+" } else { "-" });
    s.append(" ");
    s.append(tx.amount.to_four_places().as_str());
    s.append(" CC  │  ");
    s.append(fmt_timestamp(tx.timestamp).as_str());
    s.append("  │  ");
    s.append(tx.memo.as_str());
    s
}

// ---- What the wallet's steps come to -------------------------------------------------------

/// A payment, step by step: the server must be reached; the recipient, trimmed and in lower case,
/// must be named, be somebody else and have an account; the amount must be a number and is taken as
/// it is; and the sender must say yes.
pub proof fn law_payment_takes_its_steps(
    own: Seq<char>,
    line: Seq<char>,
    recipient: Seq<char>,
    receiver_id: Seq<char>,
    amount: Double,
)
    ensures
        ({
            let to = text::lowercase(text::trimmed(line));
            let typed = SendEventView::Typed { line };
            let yes = text::trimmed(line) == seq!['y'] || text::trimmed(line) == seq!['Y'];
            &&& sending_next(SendingView::CheckServer, SendEventView::Reached { yes: true }, own)
                == SendingView::AskRecipient
            &&& sending_next(SendingView::CheckServer, SendEventView::Reached { yes: false }, own)
                == (SendingView::Ended { why: NotSent::Unreachable })
            &&& to.len() == 0 ==> sending_next(SendingView::AskRecipient, typed, own) == (
            SendingView::Ended { why: NotSent::Cancelled })
            &&& to.len() > 0 && to == own ==> sending_next(SendingView::AskRecipient, typed, own)
                == (SendingView::Ended { why: NotSent::ToYourself })
            &&& to.len() > 0 && to != own ==> sending_next(SendingView::AskRecipient, typed, own)
                == (SendingView::LookUp { recipient: to })
            &&& sending_next(
                SendingView::LookUp { recipient },
                SendEventView::Account { id: Some(receiver_id) },
                own,
            ) == (SendingView::AskAmount { recipient, receiver_id })
            &&& sending_next(
                SendingView::LookUp { recipient },
                SendEventView::Account { id: None },
                own,
            ) == (SendingView::Ended { why: NotSent::NoAccount })
            &&& sending_next(
                SendingView::AskAmount { recipient, receiver_id },
                SendEventView::Amount { amount: Some(amount) },
                own,
            ) == (SendingView::Confirm { recipient, receiver_id, amount })
            &&& sending_next(
                SendingView::AskAmount { recipient, receiver_id },
                SendEventView::Amount { amount: None },
                own,
            ) == (SendingView::Ended { why: NotSent::InvalidAmount })
            &&& sending_next(SendingView::Confirm { recipient, receiver_id, amount }, typed, own)
                == (if yes {
                SendingView::Transfer {
                    recipient,
                    receiver_id,
                    amount,
                    memo: "Transfer to "@ + recipient,
                }
            } else {
                SendingView::Ended { why: NotSent::Cancelled }
            })
        }),
{
}

/// The menu goes by the answer without the white space around it.
pub proof fn law_menu_is_read(a: Seq<char>, t: Seq<char>, b: Seq<char>)
    requires
        forall|i: int| 0 <= i < a.len() ==> text::white_space(#[trigger] a[i]),
        forall|i: int| 0 <= i < b.len() ==> text::white_space(#[trigger] b[i]),
        t.len() > 0 ==> !text::white_space(t[0]) && !text::white_space(t.last()),
    ensures
        t == "1"@ ==> chosen(a + t + b) == WalletChoice::Send,
        t == "2"@ ==> chosen(a + t + b) == WalletChoice::History,
        t == "3"@ ==> chosen(a + t + b) == WalletChoice::Lookup,
        t != "1"@ && t != "2"@ && t != "3"@ ==> chosen(a + t + b) == WalletChoice::Back,
{
    reveal_strlit("1");
    reveal_strlit("2");
    reveal_strlit("3");
    assert("1"@[0] == '1' && "2"@[0] == '2' && "3"@[0] == '3');
    text::law_trimming_takes_off_white_space(a, t, b);
}

/// A transaction is incoming for whoever received it, and a reward, which nobody sent, for everyone
/// who sees it; for a sender who is not also the receiver it is not.
pub proof fn law_incoming_goes_by_the_receiver(tx: crate::db::TxRecordView, user_id: Seq<char>)
    ensures
        tx.receiver_id == user_id ==> incoming(tx, user_id),
        tx.sender_id is None ==> incoming(tx, user_id),
        tx.sender_id is Some && tx.receiver_id != user_id ==> !incoming(tx, user_id),
{
}

/// A rough date names the year of 365 days, the month of 30 and the day in it, the hour and the
/// minute; seconds are left out.
pub proof fn law_rough_date_names_its_parts(y: nat, day: nat, h: nat, m: nat, s: nat)
    requires
        day < 365,
        h < 24,
        m < 60,
        s < 60,
    ensures
        rough_date((y * 365 + day) * 86400 + h * 3600 + m * 60 + s) == text::zero_filled(
            1970 + y,
            4,
        ) + "-"@ + text::zero_filled(day / 30 + 1, 2) + "-"@ + text::zero_filled(day % 30 + 1, 2)
            + " "@ + text::zero_filled(h, 2) + ":"@ + text::zero_filled(m, 2),
{
    let days = y * 365 + day;
    let secs = days * 86400 + h * 3600 + m * 60 + s;
    let rest = h * 3600 + m * 60 + s;
    assert(rest < 86400);
    assert(secs / 86400 == days && secs % 86400 == rest);
    assert(days / 365 == y && days % 365 == day);
    assert(rest / 3600 == h);
    assert(secs % 3600 == m * 60 + s);
    assert((m * 60 + s) / 60 == m);
}

/// The balance of the server is shown, whatever it is, as long as the server is there and knows it.
pub proof fn law_balance_of_the_server_counts(b: Double, local: Double)
    ensures
        balance_shown(true, Some(b), local) == b,
        balance_shown(false, Some(b), local) == local,
        balance_shown(true, None, local) == local,
        balance_shown(false, None, local) == local,
{
}

/// A line of the history has a plus sign for what was received and for rewards, and a minus sign for
/// what was sent; then the amount, the date and the words.
pub proof fn law_history_reads_from_one_side(tx: crate::db::TxRecordView, user_id: Seq<char>)
    ensures
        ({
            let rest = " "@ + double::four_places(tx.amount) + " CC  │  "@ + rough_date(
                tx.timestamp as nat,
            ) + "  │  "@ + tx.memo;
            &&& tx.sender_id is None || tx.receiver_id == user_id ==> history_text(tx, user_id)
                == "  "@ + "+"@ + rest
            &&& tx.sender_id is Some && tx.receiver_id != user_id ==> history_text(tx, user_id)
                == "  "@ + "-"@ + rest
        }),
{
    let rest = " "@ + double::four_places(tx.amount) + " CC  │  "@ + rough_date(
        tx.timestamp as nat,
    ) + "  │  "@ + tx.memo;
    let sign = if incoming(tx, user_id) {
        "+"@
    } else {
        "-"@
    };
    assert(history_text(tx, user_id) =~= "  "@ + sign + rest);
}

/// What a payment does not wait for changes nothing; once it is to be made or has ended, nothing does.
pub proof fn law_payments_wait(state: SendingView, event: SendEventView, own: Seq<char>)
    ensures
        state is Transfer || state is Ended ==> sending_next(state, event, own) == state,
        state is CheckServer && !(event is Reached) ==> sending_next(state, event, own) == state,
        (state is AskRecipient || state is Confirm) && !(event is Typed) ==> sending_next(
            state,
            event,
            own,
        ) == state,
        state is LookUp && !(event is Account) ==> sending_next(state, event, own) == state,
        state is AskAmount && !(event is Amount) ==> sending_next(state, event, own) == state,
{
}

} // verus!
