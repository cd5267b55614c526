//! The ledger's records: accounts, categories, transactions, savings pockets,
//! debts and receivables, and the summaries computed from them.

use vstd::prelude::*;
use crate::text::str_eq;

verus! {

broadcast use vstd::string::group_string_axioms;

/// Kind of account (wallet).
#[derive(Debug, Clone, Copy, PartialEq, Eq, Structural)]
pub enum AccountType {
    Bank,
    EWallet,
    Cash,
    Investment,
}

impl AccountType {
    /// The stored name of the kind.
    pub open spec fn name_text(self) -> Seq<char> {
        match self {
            AccountType::Bank => "bank"@,
            AccountType::EWallet => "ewallet"@,
            AccountType::Cash => "cash"@,
            AccountType::Investment => "investment"@,
        }
    }

    /// The kind a stored name stands for; an unknown name is read as `Bank`.
    pub open spec fn parse(s: Seq<char>) -> AccountType {
        if s == "ewallet"@ {
            AccountType::EWallet
        } else if s == "cash"@ {
            AccountType::Cash
        } else if s == "investment"@ {
            AccountType::Investment
        } else {
            AccountType::Bank
        }
    }

    /// The name shown to the user.
    pub open spec fn label_text(self) -> Seq<char> {
        match self {
            AccountType::Bank => "Bank"@,
            AccountType::EWallet => "E-Wallet"@,
            AccountType::Cash => "Cash"@,
            AccountType::Investment => "Investasi"@,
        }
    }

    pub fn as_str(&self) -> (s: &'static str)
        ensures
            s@ == self.name_text(),
    {
        match self {
            AccountType::Bank => "bank",
            AccountType::EWallet => "ewallet",
            AccountType::Cash => "cash",
            AccountType::Investment => "investment",
        }
    }

    pub fn from_str(s: &str) -> (r: Self)
        ensures
            r == Self::parse(s@),
    {
        if str_eq(s, "ewallet") {
            AccountType::EWallet
        } else if str_eq(s, "cash") {
            AccountType::Cash
        } else if str_eq(s, "investment") {
            AccountType::Investment
        } else {
            AccountType::Bank
        }
    }

    pub fn label(&self) -> (s: &'static str)
        ensures
            s@ == self.label_text(),
    {
        match self {
            AccountType::Bank => "Bank",
            AccountType::EWallet => "E-Wallet",
            AccountType::Cash => "Cash",
            AccountType::Investment => "Investasi",
        }
    }
}

/// Kind of transaction.
#[derive(Debug, Clone, Copy, PartialEq, Eq, Structural)]
pub enum TxType {
    Income,
    Expense,
    Transfer,
}

impl TxType {
    pub open spec fn name_text(self) -> Seq<char> {
        match self {
            TxType::Income => "income"@,
            TxType::Expense => "expense"@,
            TxType::Transfer => "transfer"@,
        }
    }

    /// The kind a stored name stands for; an unknown name is read as `Expense`.
    pub open spec fn parse(s: Seq<char>) -> TxType {
        if s == "income"@ {
            TxType::Income
        } else if s == "transfer"@ {
            TxType::Transfer
        } else {
            TxType::Expense
        }
    }

    pub open spec fn label_text(self) -> Seq<char> {
        match self {
            TxType::Income => "Pemasukan"@,
            TxType::Expense => "Pengeluaran"@,
            TxType::Transfer => "Transfer"@,
        }
    }

    pub fn as_str(&self) -> (s: &'static str)
        ensures
            s@ == self.name_text(),
    {
        match self {
            TxType::Income => "income",
            TxType::Expense => "expense",
            TxType::Transfer => "transfer",
        }
    }

    pub fn from_str(s: &str) -> (r: Self)
        ensures
            r == Self::parse(s@),
    {
        if str_eq(s, "income") {
            TxType::Income
        } else if str_eq(s, "transfer") {
            TxType::Transfer
        } else {
            TxType::Expense
        }
    }

    pub fn label(&self) -> (s: &'static str)
        ensures
            s@ == self.label_text(),
    {
        match self {
            TxType::Income => "Pemasukan",
            TxType::Expense => "Pengeluaran",
            TxType::Transfer => "Transfer",
        }
    }
}

/// Whether a transaction has reached the spreadsheet.
#[derive(Debug, Clone, Copy, PartialEq, Eq, Structural)]
pub enum SyncStatus {
    Synced,
    Pending,
    Failed,
}

impl SyncStatus {
    pub open spec fn name_text(self) -> Seq<char> {
        match self {
            SyncStatus::Synced => "synced"@,
            SyncStatus::Pending => "pending"@,
            SyncStatus::Failed => "failed"@,
        }
    }

    /// The status a stored name stands for; an unknown name is read as `Pending`.
    pub open spec fn parse(s: Seq<char>) -> SyncStatus {
        if s == "synced"@ {
            SyncStatus::Synced
        } else if s == "failed"@ {
            SyncStatus::Failed
        } else {
            SyncStatus::Pending
        }
    }

    pub fn as_str(&self) -> (s: &'static str)
        ensures
            s@ == self.name_text(),
    {
        match self {
            SyncStatus::Synced => "synced",
            SyncStatus::Pending => "pending",
            SyncStatus::Failed => "failed",
        }
    }

    pub fn from_str(s: &str) -> (r: Self)
        ensures
            r == Self::parse(s@),
    {
        if str_eq(s, "synced") {
            SyncStatus::Synced
        } else if str_eq(s, "failed") {
            SyncStatus::Failed
        } else {
            SyncStatus::Pending
        }
    }
}

/// Reading back the stored name of an account kind gives the same kind.
pub proof fn lemma_account_type_round_trip(t: AccountType)
    ensures
        AccountType::parse(t.name_text()) == t,
{
    reveal_strlit("bank");
    reveal_strlit("ewallet");
    reveal_strlit("cash");
    reveal_strlit("investment");
    assert("bank"@[0] != "ewallet"@[0] && "bank"@[0] != "cash"@[0] && "bank"@[0] != "investment"@[0]);
    assert("ewallet"@[0] != "cash"@[0] && "ewallet"@[0] != "investment"@[0]);
    assert("cash"@[0] != "investment"@[0]);
}

/// Reading back the stored name of a transaction kind gives the same kind.
pub proof fn lemma_tx_type_round_trip(t: TxType)
    ensures
        TxType::parse(t.name_text()) == t,
{
    reveal_strlit("income");
    reveal_strlit("expense");
    reveal_strlit("transfer");
    assert("income"@[0] != "expense"@[0] && "income"@[0] != "transfer"@[0]);
    assert("expense"@[0] != "transfer"@[0]);
}

/// Reading back the stored name of a sync status gives the same status.
pub proof fn lemma_sync_status_round_trip(t: SyncStatus)
    ensures
        SyncStatus::parse(t.name_text()) == t,
{
    reveal_strlit("synced");
    reveal_strlit("pending");
    reveal_strlit("failed");
    assert("synced"@[0] != "pending"@[0] && "synced"@[0] != "failed"@[0]);
    assert("pending"@[0] != "failed"@[0]);
}

/// A copy of an optional string.
pub fn copy_opt(o: &Option<String>) -> (r: Option<String>)
    ensures
        r == *o,
{
    match o {
        Some(s) => Some(s.clone()),
        None => None,
    }
}

/// Account / wallet.
#[derive(Debug, Clone)]
pub struct Account {
    pub id: String,
    pub name: String,
    pub account_type: AccountType,
    pub account_number: Option<String>,
    pub current_balance: i64,
    pub is_active: bool,
    pub created_at: i64,
    pub updated_at: i64,
}

impl Account {
    pub fn duplicate(&self) -> (r: Self)
        ensures
            r == *self,
    {
        Account {
            id: self.id.clone(),
            name: self.name.clone(),
            account_type: self.account_type,
            account_number: copy_opt(&self.account_number),
            current_balance: self.current_balance,
            is_active: self.is_active,
            created_at: self.created_at,
            updated_at: self.updated_at,
        }
    }
}

/// Transaction category.
#[derive(Debug, Clone)]
pub struct Category {
    pub id: String,
    pub name: String,
    pub category_type: TxType,
    pub icon: String,
    pub color_hex: String,
}

impl Category {
    pub fn duplicate(&self) -> (r: Self)
        ensures
            r == *self,
    {
        Category {
            id: self.id.clone(),
            name: self.name.clone(),
            category_type: self.category_type,
            icon: self.icon.clone(),
            color_hex: self.color_hex.clone(),
        }
    }
}

/// Transaction.
#[derive(Debug, Clone)]
pub struct Transaction {
    pub id: String,
    pub account_id: String,
    pub destination_account_id: Option<String>,
    pub category_id: String,
    pub amount: i64,
    pub transaction_type: TxType,
    pub date: i64,
    pub note: String,
    pub receipt_url: Option<String>,
    pub sync_status: SyncStatus,
    pub sheet_row_id: Option<u32>,
}

impl Transaction {
    pub fn duplicate(&self) -> (r: Self)
        ensures
            r == *self,
    {
        Transaction {
            id: self.id.clone(),
            account_id: self.account_id.clone(),
            destination_account_id: copy_opt(&self.destination_account_id),
            category_id: self.category_id.clone(),
            amount: self.amount,
            transaction_type: self.transaction_type,
            date: self.date,
            note: self.note.clone(),
            receipt_url: copy_opt(&self.receipt_url),
            sync_status: self.sync_status,
            sheet_row_id: self.sheet_row_id,
        }
    }
}

/// Savings pocket (envelope) tied to an account.
#[derive(Debug, Clone)]
pub struct SavingsPocket {
    pub id: String,
    pub name: String,
    pub target_amount: i64,
    pub current_amount: i64,
    pub linked_account_id: String,
    pub target_date: Option<i64>,
    pub color_tag: String,
    pub is_locked: bool,
}

impl SavingsPocket {
    pub fn duplicate(&self) -> (r: Self)
        ensures
            r == *self,
    {
        SavingsPocket {
            id: self.id.clone(),
            name: self.name.clone(),
            target_amount: self.target_amount,
            current_amount: self.current_amount,
            linked_account_id: self.linked_account_id.clone(),
            target_date: self.target_date,
            color_tag: self.color_tag.clone(),
            is_locked: self.is_locked,
        }
    }
}

/// Input to create or update an account.
#[derive(Debug, Clone)]
pub struct AccountInput {
    pub name: String,
    pub account_type: String,
    pub account_number: Option<String>,
    pub current_balance: i64,
    pub is_active: Option<bool>,
}

/// Input to create a category.
#[derive(Debug, Clone)]
pub struct CategoryInput {
    pub name: String,
    pub category_type: String,
    pub icon: String,
    pub color_hex: String,
}

/// Input to create or update a transaction.
#[derive(Debug, Clone)]
pub struct TransactionInput {
    pub account_id: String,
    pub destination_account_id: Option<String>,
    pub category_id: String,
    pub amount: i64,
    pub transaction_type: String,
    pub date: i64,
    pub note: String,
    pub receipt_url: Option<String>,
}

/// Input to create or update a savings pocket.
#[derive(Debug, Clone)]
pub struct SavingsPocketInput {
    pub name: String,
    pub target_amount: i64,
    pub current_amount: Option<i64>,
    pub linked_account_id: String,
    pub target_date: Option<i64>,
    pub color_tag: String,
    pub is_locked: Option<bool>,
}

/// Dashboard totals.
#[derive(Debug, Clone)]
pub struct DashboardSummary {
    pub net_worth: i64,
    pub total_income: i64,
    pub total_expense: i64,
    pub net_cashflow: i64,
    pub total_savings: i64,
}

/// Spending of one category (for the donut chart).
#[derive(Debug, Clone)]
pub struct CategorySpend {
    pub category_id: String,
    pub category_name: String,
    pub color_hex: String,
    pub icon: String,
    pub amount: i64,
}

/// Overall synchronisation status.
#[derive(Debug, Clone)]
pub struct SyncInfo {
    pub status: String,
    pub pending_count: u32,
    pub sheet_url: Option<String>,
    pub auto_sync: bool,
}

/// A mutual fund from the catalogue cache. The catalogue's fractional figures
/// (NAV, returns, assets under management) are kept as the bit patterns of
/// IEEE-754 doubles (`f64::to_bits`); the ledger never computes with them.
#[derive(Debug, Clone)]
pub struct MutualFundProduct {
    pub id: String,
    pub name: String,
    pub fund_type: String,
    pub manager_name: String,
    pub is_syariah: bool,
    pub current_nav: u64,
    pub return_1d: Option<u64>,
    pub return_1y: Option<u64>,
    pub aum: Option<u64>,
    pub min_buy: i64,
    pub last_fetched_at: i64,
}

impl MutualFundProduct {
    pub fn duplicate(&self) -> (r: Self)
        ensures
            r == *self,
    {
        MutualFundProduct {
            id: self.id.clone(),
            name: self.name.clone(),
            fund_type: self.fund_type.clone(),
            manager_name: self.manager_name.clone(),
            is_syariah: self.is_syariah,
            current_nav: self.current_nav,
            return_1d: self.return_1d,
            return_1y: self.return_1y,
            aum: self.aum,
            min_buy: self.min_buy,
            last_fetched_at: self.last_fetched_at,
        }
    }
}

/// A mutual fund transaction: "BUY", "SELL" or "DIVIDEND". Units and NAV are
/// kept as the bit patterns of IEEE-754 doubles (`f64::to_bits`).
#[derive(Debug, Clone)]
pub struct InvestmentTransaction {
    pub id: String,
    pub product_id: String,
    pub account_id: String,
    pub tx_type: String,
    pub units: u64,
    pub nav_per_unit: u64,
    pub total_amount: i64,
    pub fee: i64,
    pub date: i64,
    pub note: Option<String>,
}

impl InvestmentTransaction {
    pub fn duplicate(&self) -> (r: Self)
        ensures
            r == *self,
    {
        InvestmentTransaction {
            id: self.id.clone(),
            product_id: self.product_id.clone(),
            account_id: self.account_id.clone(),
            tx_type: self.tx_type.clone(),
            units: self.units,
            nav_per_unit: self.nav_per_unit,
            total_amount: self.total_amount,
            fee: self.fee,
            date: self.date,
            note: copy_opt(&self.note),
        }
    }
}

/// One fund held in the portfolio, aggregated from its transactions. Units,
/// NAVs and the percentage are the bit patterns of IEEE-754 doubles
/// (`f64::to_bits`); the money columns are whole units of currency.
#[derive(Debug, Clone)]
pub struct PortfolioHolding {
    pub product_id: String,
    pub product_name: String,
    pub fund_type: String,
    pub manager_name: String,
    pub total_units: u64,
    pub avg_buy_nav: u64,
    pub total_invested: i64,
    pub current_nav: u64,
    pub current_value: i64,
    pub unrealized_pnl: i64,
    pub roi_percentage: u64,
}

/// Daily portfolio value snapshot.
#[derive(Debug, Clone)]
pub struct PortfolioSnapshot {
    /// Local midnight (start of day) of the snapshot, as a Unix timestamp.
    pub day: i64,
    pub total_value: i64,
    pub total_invested: i64,
    pub unrealized_pnl: i64,
}

/// A debt to, or a receivable from, one counterparty.
#[derive(Debug, Clone)]
pub struct Obligation {
    pub id: String,
    /// "DEBT" (owed to others) or "RECEIVABLE" (owed to us).
    pub direction: String,
    pub counterparty: String,
    pub title: String,
    pub original_amount: i64,
    pub remaining_amount: i64,
    pub due_date: Option<i64>,
    pub note: Option<String>,
    /// "OPEN" or "DONE".
    pub status: String,
    pub created_at: i64,
    pub updated_at: i64,
}

impl Obligation {
    pub fn duplicate(&self) -> (r: Self)
        ensures
            r == *self,
    {
        Obligation {
            id: self.id.clone(),
            direction: self.direction.clone(),
            counterparty: self.counterparty.clone(),
            title: self.title.clone(),
            original_amount: self.original_amount,
            remaining_amount: self.remaining_amount,
            due_date: self.due_date,
            note: copy_opt(&self.note),
            status: self.status.clone(),
            created_at: self.created_at,
            updated_at: self.updated_at,
        }
    }
}

/// Input to create or update an obligation.
#[derive(Debug, Clone)]
pub struct ObligationInput {
    pub direction: String,
    pub counterparty: String,
    pub title: String,
    pub original_amount: i64,
    /// Defaults to `original_amount`.
    pub remaining_amount: Option<i64>,
    pub due_date: Option<i64>,
    pub note: Option<String>,
}

/// A (partial or full) payment of one obligation.
#[derive(Debug, Clone)]
pub struct ObligationPayment {
    pub obligation_id: String,
    /// Must be > 0.
    pub amount: i64,
    /// When present, a cash transaction is recorded and the account balance changes.
    pub account_id: Option<String>,
    pub date: Option<i64>,
}

/// Totals of the obligations that are still open.
#[derive(Debug, Clone)]
pub struct ObligationSummary {
    pub total_debt: i64,
    pub total_receivable: i64,
    pub overdue_count: u32,
}

/// Totals of the investment portfolio.
#[derive(Debug, Clone)]
pub struct PortfolioSummary {
    pub total_value: i64,
    pub total_invested: i64,
    pub unrealized_pnl: i64,
}

} // verus!
