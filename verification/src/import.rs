//! Import of Skandiabanken account statements: reading the rows of the
//! "Kontoutdrag" sheet into transactions, planning the commands that create
//! the accounts and add the transactions, and tallying what was imported.

use crate::budget::BankTransaction;
use crate::framework::CommandError;
use crate::holidays::UtcDateTime;
use crate::money::{Currency, Money};
use crate::text::{push_char, strip_prefix, trim, trim_spec};
use crate::calendar::valid_ymd;
use chrono::Datelike;
use vstd::prelude::*;

verus! {

/// An ASCII decimal digit.
pub open spec fn is_ascii_digit(c: char) -> bool {
    '0' <= c && c <= '9'
}

/// The ASCII decimal digits of a text, in order.
pub open spec fn ascii_digits(s: Seq<char>) -> Seq<char> {
    s.filter(|c: char| is_ascii_digit(c))
}

/// The counterpart account number of a transfer description: the digits
/// after `"Överföring "` (once surrounding whitespace is trimmed), when they
/// start with the Skandiabanken clearing number 915.
pub open spec fn transfer_account_number(description: Seq<char>) -> Option<Seq<char>> {
    let t = trim_spec(description);
    let prefix = "Överföring "@;
    if prefix.is_prefix_of(t) {
        let digits = ascii_digits(t.skip(prefix.len() as int));
        if "915"@.is_prefix_of(digits) {
            Some(digits)
        } else {
            None
        }
    } else {
        None
    }
}

/// The digits of `s`, in order.
pub(crate) fn collect_ascii_digits(s: &str) -> (r: (String, Vec<char>))
    ensures
        r.0@ == ascii_digits(s@),
        r.1@ == ascii_digits(s@),
{
    let ghost pred = |c: char| is_ascii_digit(c);
    let mut digits = String::new();
    let mut chars_seen: Vec<char> = Vec::new();
    let n = s.unicode_len();
    let mut i: usize = 0;
    assert(s@.take(0) =~= Seq::<char>::empty());
    proof {
        reveal(Seq::filter);
    }
    while i < n
        invariant
            n == s@.len(),
            0 <= i <= n,
            digits@ == s@.take(i as int).filter(pred),
            chars_seen@ == digits@,
            pred == (|c: char| is_ascii_digit(c)),
        decreases n - i,
    {
        let c = s.get_char(i);
        proof {
            reveal(Seq::filter);
            assert(s@.take(i as int + 1).drop_last() =~= s@.take(i as int));
            assert(s@.take(i as int + 1).last() == c);
        }
        if '0' <= c && c <= '9' {
            push_char(&mut digits, c);
            chars_seen.push(c);
        }
        i = i + 1;
    }
    assert(s@.take(n as int) =~= s@);
    (digits, chars_seen)
}

/// The counterpart account number of a transfer ("Överföring ...") to
/// another Skandiabanken account, if the description is one.
pub fn extract_transfer_account_number(description: &str) -> (r: Option<String>)
    ensures
        match r {
            Some(s) => transfer_account_number(description@) == Some(s@),
            None => transfer_account_number(description@) is None,
        },
{
    let desc = trim(description);
    match strip_prefix(desc, "Överföring ") {
        Some(rest) => {
            proof {
                let p = "Överföring "@;
                assert(rest@ =~= desc@.skip(p.len() as int));
                assert(p.is_prefix_of(desc@)) by {
                    assert(desc@.subrange(0, p.len() as int) =~= p);
                }
            }
            let (digits, chars) = collect_ascii_digits(rest);
            proof {
                reveal_strlit("915");
            }
            if chars.len() >= 3 && chars[0] == '9' && chars[1] == '1' && chars[2] == '5' {
                proof {
                    assert(digits@.subrange(0, 3) =~= "915"@);
                }
                Some(digits)
            } else {
                proof {
                    if "915"@.is_prefix_of(digits@) {
                        assert(digits@.subrange(0, 3) == "915"@);
                        assert(digits@[0] == "915"@[0]);
                        assert(digits@[1] == "915"@[1]);
                        assert(digits@[2] == "915"@[2]);
                    }
                }
                None
            }
        },
        None => None,
    }
}

/// One row of the statement sheet: the text of its cells as displayed, and
/// the amount (third cell) and balance (fourth cell) in minor units when
/// those cells hold numbers.
#[derive(Debug, Clone)]
pub struct SheetRow {
    pub cells: Vec<String>,
    pub amount_cents: Option<i64>,
    pub balance_cents: Option<i64>,
}

/// The texts of the cells of a row.
pub open spec fn cell_texts(row: SheetRow) -> Seq<Seq<char>> {
    row.cells@.map_values(|c: String| c@)
}

/// Why a statement could not be read.
#[derive(Debug)]
pub enum ImportError {
    AccountNumberMissing,
    ParseError(chrono::ParseError),
}

/// `chrono::format::ParseError`, the error of a date that does not parse.
#[verifier::external_type_specification]
#[verifier::external_body]
pub struct ExParseError(chrono::ParseError);

/// The year, month and day that `chrono::NaiveDate::parse_from_str(s,
/// "%Y-%m-%d")` reads from `s`, when it reads one.
pub uninterp spec fn parsed_iso_date(s: Seq<char>) -> Option<(int, int, int)>;

/// Calls `chrono::NaiveDate::parse_from_str(s, "%Y-%m-%d")`; a date it
/// returns exists in the calendar.
#[verifier::external_body]
fn parse_iso_date(s: &str) -> (r: Result<(i32, u32, u32), chrono::ParseError>)
    ensures
        match r {
            Ok(t) => {
                &&& parsed_iso_date(s@) == Some((t.0 as int, t.1 as int, t.2 as int))
                &&& valid_ymd(t.0 as int, t.1 as int, t.2 as int)
            },
            Err(_) => parsed_iso_date(s@) is None,
        },
{
    match chrono::NaiveDate::parse_from_str(s, "%Y-%m-%d") {
        Ok(d) => Ok((d.year(), d.month(), d.day())),
        Err(e) => Err(e),
    }
}

/// One transaction row of a statement, parsed.
#[derive(Debug, Clone)]
pub struct ParsedTransactionRow {
    pub account_number: String,
    pub counterpart_account_number: Option<String>,
    pub amount: Money,
    pub balance: Money,
    pub description: String,
    pub date: UtcDateTime,
}

/// The mathematical value of a parsed row.
pub struct ParsedRowView {
    pub account_number: Seq<char>,
    pub counterpart_account_number: Option<Seq<char>>,
    pub amount: Money,
    pub balance: Money,
    pub description: Seq<char>,
    pub date: UtcDateTime,
}

impl View for ParsedTransactionRow {
    type V = ParsedRowView;

    open spec fn view(&self) -> ParsedRowView {
        ParsedRowView {
            account_number: self.account_number@,
            counterpart_account_number: match self.counterpart_account_number {
                Some(c) => Some(c@),
                None => None,
            },
            amount: self.amount,
            balance: self.balance,
            description: self.description@,
            date: self.date,
        }
    }
}

/// A parsed statement: the account it is for, and its transaction rows.
#[derive(Debug)]
pub struct ParsedSkandiaSheet {
    pub primary_account_number: Option<String>,
    pub rows: Vec<ParsedTransactionRow>,
}

/// Rows after the header block that have more than three cells hold
/// transactions.
pub open spec fn is_transaction_row(rows: Seq<SheetRow>, i: int) -> bool {
    i > 3 && rows[i].cells@.len() > 3
}

/// The date of a transaction row parses.
pub open spec fn row_date_parses(rows: Seq<SheetRow>, i: int) -> bool {
    parsed_iso_date(cell_texts(rows[i])[0]) is Some
}

/// Reading reaches row `i`: every transaction row before it has a date
/// that parses.
pub open spec fn row_reached(rows: Seq<SheetRow>, i: int) -> bool {
    forall|j: int| 0 <= j < i && is_transaction_row(rows, j) ==> #[trigger] row_date_parses(rows, j)
}

/// The indices of the transaction rows among the first `n` rows.
pub open spec fn transaction_rows_before(rows: Seq<SheetRow>, n: int) -> Seq<int> {
    Seq::new(n as nat, |i: int| i).filter(|i: int| is_transaction_row(rows, i))
}

/// The parsed value of transaction row `i`.
pub open spec fn parsed_row(rows: Seq<SheetRow>, i: int) -> ParsedRowView {
    let cells = cell_texts(rows[i]);
    let date = parsed_iso_date(cells[0])->0;
    ParsedRowView {
        account_number: cell_texts(rows[0])[1],
        counterpart_account_number: transfer_account_number(cells[1]),
        amount: Money::spec_new(rows[i].amount_cents->0 as int, Currency::SEK),
        balance: Money::spec_new(rows[i].balance_cents->0 as int, Currency::SEK),
        description: cells[1],
        date: UtcDateTime {
            year: date.0 as i32,
            month: date.1 as u32,
            day: date.2 as u32,
            hour: 0,
            minute: 0,
            second: 0,
            nanosecond: 0,
        },
    }
}

/// The values of parsed rows.
pub open spec fn parsed_views(s: Seq<ParsedTransactionRow>) -> Seq<ParsedRowView> {
    s.map_values(|r: ParsedTransactionRow| r@)
}

/// Reading the sheet indexes only cells that exist (the first row has an
/// account number cell) and finds the amount and balance of every
/// transaction row it reaches.
pub open spec fn sheet_readable(rows: Seq<SheetRow>) -> bool {
    &&& rows.len() > 0 ==> rows[0].cells@.len() > 1
    &&& forall|i: int|
        0 <= i < rows.len() && is_transaction_row(rows, i) && #[trigger] row_reached(rows, i)
            ==> rows[i].amount_cents is Some && rows[i].balance_cents is Some
}

/// Every parsed row has a date `chrono` can represent.
pub open spec fn rows_dates_wf(rows: Seq<ParsedTransactionRow>) -> bool {
    forall|i: int| 0 <= i < rows.len() ==> (#[trigger] rows[i]).date.wf()
}

/// The outcome of reading the sheet: an error exactly when some
/// transaction date does not parse, and otherwise the account number of
/// the first row and every transaction row, in order.
pub open spec fn sheet_read_as(rows: Seq<SheetRow>, res: Result<ParsedSkandiaSheet, ImportError>) -> bool {
    &&& res is Err <==> exists|i: int|
        0 <= i < rows.len() && is_transaction_row(rows, i) && !#[trigger] row_date_parses(rows, i)
    &&& res is Err ==> res->Err_0 is ParseError
    &&& match res {
        Ok(sheet) => {
            &&& rows.len() > 0 ==> (sheet.primary_account_number matches Some(a) && a@
                == cell_texts(rows[0])[1])
            &&& rows.len() == 0 ==> sheet.primary_account_number is None
            &&& rows_dates_wf(sheet.rows@)
            &&& parsed_views(sheet.rows@) == transaction_rows_before(rows, rows.len() as int).map_values(
                |i: int| parsed_row(rows, i),
            )
        },
        Err(_) => true,
    }
}

/// Reads the rows of the "Kontoutdrag" sheet: the account number is the
/// second cell of the first row, and every row after the fourth with more
/// than three cells is a transaction (date, description, amount,
/// balance). Fails on the first transaction date that does not parse.
pub fn parse_skandia_sheet(rows: &Vec<SheetRow>) -> (res: Result<ParsedSkandiaSheet, ImportError>)
    requires
        sheet_readable(rows@),
    ensures
        sheet_read_as(rows@, res),
{
    let mut account_number: Option<String> = None;
    let mut parsed: Vec<ParsedTransactionRow> = Vec::new();
    let n = rows.len();
    let mut row_num: usize = 0;
    proof {
        reveal(Seq::filter);
        assert(transaction_rows_before(rows@, 0) =~= Seq::<int>::empty());
        assert(parsed_views(parsed@) =~= Seq::<ParsedRowView>::empty());
    }
    while row_num < n
        invariant
            n == rows@.len(),
            0 <= row_num <= n,
            sheet_readable(rows@),
            row_reached(rows@, row_num as int),
            row_num == 0 ==> account_number is None,
            row_num > 0 ==> (account_number matches Some(a) && a@ == cell_texts(rows@[0])[1]),
            parsed_views(parsed@) == transaction_rows_before(rows@, row_num as int).map_values(
                |i: int| parsed_row(rows@, i),
            ),
            rows_dates_wf(parsed@),
        decreases n - row_num,
    {
        let row = &rows[row_num];
        let ghost before = parsed@;
        proof {
            reveal(Seq::filter);
            assert(Seq::new((row_num + 1) as nat, |i: int| i).drop_last() =~= Seq::new(row_num as nat, |i: int| i));
        }
        if row_num == 0 {
            account_number = Some(row.cells[1].clone());
            proof {
                assert(!is_transaction_row(rows@, 0));
                assert(transaction_rows_before(rows@, 1) =~= transaction_rows_before(rows@, 0));
            }
        } else if row_num > 3 && row.cells.len() > 3 {
            proof {
                assert(is_transaction_row(rows@, row_num as int));
            }
            let amount = Money::new_cents(row.amount_cents.unwrap(), Currency::SEK);
            let balance = Money::new_cents(row.balance_cents.unwrap(), Currency::SEK);
            let date_str = row.cells[0].as_str();
            let (y, m, d) = match parse_iso_date(date_str) {
                Ok(t) => t,
                Err(e) => {
                    proof {
                        assert(!row_date_parses(rows@, row_num as int));
                    }
                    return Err(ImportError::ParseError(e));
                },
            };
            let date = UtcDateTime {
                year: y,
                month: m,
                day: d,
                hour: 0,
                minute: 0,
                second: 0,
                nanosecond: 0,
            };
            let description = row.cells[1].clone();
            let counterpart_account_number = extract_transfer_account_number(description.as_str());
            let acct_no = match &account_number {
                Some(a) => a.clone(),
                None => {
                    return Err(ImportError::AccountNumberMissing);
                },
            };
            parsed.push(
                ParsedTransactionRow {
                    account_number: acct_no,
                    counterpart_account_number,
                    amount,
                    balance,
                    description,
                    date,
                },
            );
            proof {
                assert(row_date_parses(rows@, row_num as int));
                assert(transaction_rows_before(rows@, row_num as int + 1) =~= transaction_rows_before(
                    rows@,
                    row_num as int,
                ).push(row_num as int));
                assert(parsed@[parsed@.len() - 1]@ == parsed_row(rows@, row_num as int));
                assert(parsed_views(parsed@) =~= parsed_views(before).push(
                    parsed_row(rows@, row_num as int),
                ));
            }
        } else {
            proof {
                assert(!is_transaction_row(rows@, row_num as int));
                assert(transaction_rows_before(rows@, row_num as int + 1) =~= transaction_rows_before(
                    rows@,
                    row_num as int,
                ));
            }
        }
        proof {
            assert(transaction_rows_before(rows@, row_num as int + 1).map_values(
                |i: int| parsed_row(rows@, i),
            ) =~= parsed_views(parsed@));
        }
        row_num = row_num + 1;
    }
    proof {
        assert(forall|i: int|
            0 <= i < rows@.len() && is_transaction_row(rows@, i) ==> #[trigger] row_date_parses(rows@, i));
    }
    Ok(ParsedSkandiaSheet { primary_account_number: account_number, rows: parsed })
}

/// Reads the sheet as `parse_skandia_sheet` does, or gives `None` when
/// reading it would index a missing account number cell or meet a
/// transaction row whose amount or balance is not a number.
pub fn parse_skandia_sheet_checked(rows: &Vec<SheetRow>) -> (res: Option<
    Result<ParsedSkandiaSheet, ImportError>,
>)
    ensures
        res is Some <==> sheet_readable(rows@),
        res matches Some(r) ==> sheet_read_as(rows@, r),
{
    let n = rows.len();
    if n > 0 && rows[0].cells.len() <= 1 {
        return None;
    }
    let mut i: usize = 0;
    while i < n
        invariant_except_break
            n == rows@.len(),
            0 <= i <= n,
            rows@.len() > 0 ==> rows@[0].cells@.len() > 1,
            row_reached(rows@, i as int),
            forall|j: int|
                0 <= j < i && is_transaction_row(rows@, j) && #[trigger] row_reached(rows@, j)
                    ==> rows@[j].amount_cents is Some && rows@[j].balance_cents is Some,
        ensures
            sheet_readable(rows@),
        decreases n - i,
    {
        let row = &rows[i];
        if i > 3 && row.cells.len() > 3 {
            if row.amount_cents.is_none() || row.balance_cents.is_none() {
                proof {
                    assert(is_transaction_row(rows@, i as int) && row_reached(rows@, i as int));
                }
                return None;
            }
            match parse_iso_date(row.cells[0].as_str()) {
                Ok(_) => {},
                Err(_) => {
                    proof {
                        assert(!row_date_parses(rows@, i as int));
                        assert forall|k: int| 0 <= k < rows@.len() && is_transaction_row(rows@, k) && #[trigger] row_reached(rows@, k)
                            implies rows@[k].amount_cents is Some && rows@[k].balance_cents is Some by {
                            if k > i {
                                assert(!row_date_parses(rows@, i as int));
                            }
                        }
                    }
                    break;
                },
            }
        }
        proof {
            assert(forall|j: int| 0 <= j < i + 1 && is_transaction_row(rows@, j) ==> #[trigger] row_date_parses(rows@, j));
        }
        i = i + 1;
    }
    Some(parse_skandia_sheet(rows))
}

/// A command of an import: open a bank account, or add a transaction.
#[derive(Debug, Clone)]
pub enum ImportCommand {
    CreateBankAccount { account_number: String, description: String },
    AddTransaction {
        account_number: String,
        amount: Money,
        balance: Money,
        description: String,
        date: UtcDateTime,
    },
}

/// The mathematical value of an import command.
pub enum ImportCommandView {
    CreateBankAccount { account_number: Seq<char>, description: Seq<char> },
    AddTransaction {
        account_number: Seq<char>,
        amount: Money,
        balance: Money,
        description: Seq<char>,
        date: UtcDateTime,
    },
}

impl View for ImportCommand {
    type V = ImportCommandView;

    open spec fn view(&self) -> ImportCommandView {
        match self {
            ImportCommand::CreateBankAccount { account_number, description } => {
                ImportCommandView::CreateBankAccount {
                    account_number: account_number@,
                    description: description@,
                }
            },
            ImportCommand::AddTransaction { account_number, amount, balance, description, date } => {
                ImportCommandView::AddTransaction {
                    account_number: account_number@,
                    amount: *amount,
                    balance: *balance,
                    description: description@,
                    date: *date,
                }
            },
        }
    }
}

/// Whether a queued command creates an account (whose outcome is not
/// reported) or imports a transaction (whose outcome is counted).
#[derive(Debug, Clone, Copy, PartialEq, Eq, Structural)]
pub enum RowCommandKind {
    Account,
    Transaction,
}

/// The kind of a command.
pub open spec fn command_kind(c: ImportCommandView) -> RowCommandKind {
    match c {
        ImportCommandView::CreateBankAccount { .. } => RowCommandKind::Account,
        ImportCommandView::AddTransaction { .. } => RowCommandKind::Transaction,
    }
}

/// The description given to the accounts an import opens.
pub open spec fn imported_account_description() -> Seq<char> {
    "Skandiabanken"@
}

/// Queues the creation of an account unless one was queued for the same
/// number already.
pub open spec fn queue_account(
    plan: (Seq<ImportCommandView>, Set<Seq<char>>),
    account_number: Seq<char>,
) -> (Seq<ImportCommandView>, Set<Seq<char>>) {
    if plan.1.contains(account_number) {
        plan
    } else {
        (
            plan.0.push(
                ImportCommandView::CreateBankAccount {
                    account_number,
                    description: imported_account_description(),
                },
            ),
            plan.1.insert(account_number),
        )
    }
}

/// The commands that import the given rows of a statement for the given
/// account, with the set of account numbers queued for creation: first
/// the statement's account, then for each row its counterpart account (if
/// not queued yet) and the transaction itself.
pub open spec fn import_plan(primary: Option<Seq<char>>, rows: Seq<ParsedRowView>) -> (
    Seq<ImportCommandView>,
    Set<Seq<char>>,
)
    decreases rows.len(),
{
    if rows.len() == 0 {
        match primary {
            Some(p) => queue_account((Seq::empty(), Set::empty()), p),
            None => (Seq::empty(), Set::empty()),
        }
    } else {
        let before = import_plan(primary, rows.drop_last());
        let row = rows.last();
        let with_account = match row.counterpart_account_number {
            Some(c) => queue_account(before, c),
            None => before,
        };
        (
            with_account.0.push(
                ImportCommandView::AddTransaction {
                    account_number: row.account_number,
                    amount: row.amount,
                    balance: row.balance,
                    description: row.description,
                    date: row.date,
                },
            ),
            with_account.1,
        )
    }
}

/// Every transaction of an import plan has a date `chrono` can represent.
pub open spec fn dates_wf(cmds: Seq<ImportCommand>) -> bool {
    forall|k: int|
        0 <= k < cmds.len() ==> (#[trigger] cmds[k] matches ImportCommand::AddTransaction { date, .. }
            ==> date.wf())
}

/// The values of commands.
pub open spec fn command_views(s: Seq<ImportCommand>) -> Seq<ImportCommandView> {
    s.map_values(|c: ImportCommand| c@)
}

/// The account numbers of a list of strings.
pub open spec fn string_views(s: Seq<String>) -> Seq<Seq<char>> {
    s.map_values(|c: String| c@)
}

/// Whether `needle` is among `haystack`.
fn contains_string(haystack: &Vec<String>, needle: &String) -> (b: bool)
    ensures
        b == string_views(haystack@).contains(needle@),
{
    let mut i: usize = 0;
    while i < haystack.len()
        invariant
            0 <= i <= haystack@.len(),
            forall|j: int| 0 <= j < i ==> haystack@[j]@ != needle@,
        decreases haystack@.len() - i,
    {
        if haystack[i] == *needle {
            proof {
                assert(string_views(haystack@)[i as int] == needle@);
            }
            return true;
        }
        i = i + 1;
    }
    proof {
        if string_views(haystack@).contains(needle@) {
            let j = choose|j: int| 0 <= j < string_views(haystack@).len() && string_views(haystack@)[j] == needle@;
            assert(haystack@[j]@ == needle@);
        }
    }
    false
}

/// Queues the creation of an account unless one was queued for the same
/// number already (executable form of `queue_account`).
fn queue_account_command(
    commands: &mut Vec<ImportCommand>,
    kinds: &mut Vec<RowCommandKind>,
    queued_accounts: &mut Vec<String>,
    account_number: String,
)
    ensures
        (command_views(final(commands)@), string_views(final(queued_accounts)@).to_set()) == queue_account(
            (command_views(old(commands)@), string_views(old(queued_accounts)@).to_set()),
            account_number@,
        ),
        dates_wf(old(commands)@) ==> dates_wf(final(commands)@),
        final(kinds)@ == if string_views(old(queued_accounts)@).contains(account_number@) {
            old(kinds)@
        } else {
            old(kinds)@.push(RowCommandKind::Account)
        },
{
    if !contains_string(queued_accounts, &account_number) {
        let ghost q_before = queued_accounts@;
        let ghost c_before = commands@;
        queued_accounts.push(account_number.clone());
        commands.push(
            ImportCommand::CreateBankAccount {
                account_number,
                description: "Skandiabanken".to_owned(),
            },
        );
        kinds.push(RowCommandKind::Account);
        proof {
            assert(string_views(queued_accounts@) =~= string_views(q_before).push(account_number@));
            string_views(q_before).lemma_push_to_set_commute(account_number@);
            assert(command_views(commands@) =~= command_views(c_before).push(commands@.last()@));
            assert(commands@ == c_before.push(commands@.last()));
            if dates_wf(c_before) {
                assert forall|k: int| 0 <= k < commands@.len() implies (#[trigger] commands@[k] matches ImportCommand::AddTransaction { date, .. }
                    ==> date.wf()) by {
                    if k < c_before.len() {
                        assert(commands@[k] == c_before[k]);
                    }
                }
            }
        }
    } else {
        proof {
            assert(string_views(queued_accounts@).to_set().contains(account_number@));
        }
    }
}

/// The account number of a parsed sheet.
pub open spec fn primary_view(sheet: &ParsedSkandiaSheet) -> Option<Seq<char>> {
    match sheet.primary_account_number {
        Some(p) => Some(p@),
        None => None,
    }
}

/// Turns a parsed sheet into the commands that import it, in row order,
/// with the kind of each command. Account creations are queued once per
/// account number: the statement's own account first, then each
/// counterpart account the first time a row names it.
pub fn build_import_commands(sheet: &ParsedSkandiaSheet) -> (r: (Vec<ImportCommand>, Vec<RowCommandKind>))
    ensures
        command_views(r.0@) == import_plan(primary_view(sheet), parsed_views(sheet.rows@)).0,
        r.1@ == command_views(r.0@).map_values(|c: ImportCommandView| command_kind(c)),
        rows_dates_wf(sheet.rows@) ==> dates_wf(r.0@),
{
    let ghost primary = primary_view(sheet);
    let ghost rows = parsed_views(sheet.rows@);
    let mut commands: Vec<ImportCommand> = Vec::new();
    let mut kinds: Vec<RowCommandKind> = Vec::new();
    let mut queued_accounts: Vec<String> = Vec::new();
    proof {
        assert(string_views(queued_accounts@).to_set() =~= Set::<Seq<char>>::empty());
        assert(command_views(commands@) =~= Seq::<ImportCommandView>::empty());
    }
    match &sheet.primary_account_number {
        Some(primary_number) => {
            queue_account_command(&mut commands, &mut kinds, &mut queued_accounts, primary_number.clone());
        },
        None => {},
    }
    proof {
        assert(rows.take(0) =~= Seq::<ParsedRowView>::empty());
        assert(kinds@ =~= command_views(commands@).map_values(|c: ImportCommandView| command_kind(c)));
    }
    let n = sheet.rows.len();
    let mut i: usize = 0;
    while i < n
        invariant
            n == sheet.rows@.len(),
            rows == parsed_views(sheet.rows@),
            0 <= i <= n,
            (command_views(commands@), string_views(queued_accounts@).to_set()) == import_plan(
                primary,
                rows.take(i as int),
            ),
            kinds@ == command_views(commands@).map_values(|c: ImportCommandView| command_kind(c)),
            rows_dates_wf(sheet.rows@) ==> dates_wf(commands@),
        decreases n - i,
    {
        let row = &sheet.rows[i];
        proof {
            assert(rows.take(i as int + 1).drop_last() =~= rows.take(i as int));
            assert(rows.take(i as int + 1).last() == row@);
        }
        match &row.counterpart_account_number {
            Some(counterpart) => {
                let ghost k_before = kinds@;
                let ghost c_before = commands@;
                queue_account_command(&mut commands, &mut kinds, &mut queued_accounts, counterpart.clone());
                proof {
                    if kinds@.len() > k_before.len() {
                        assert(kinds@ =~= command_views(commands@).map_values(|c: ImportCommandView| command_kind(c)));
                    } else {
                        assert(command_views(commands@) == command_views(c_before));
                    }
                }
            },
            None => {},
        }
        let ghost c_before = commands@;
        let ghost k_before = kinds@;
        commands.push(
            ImportCommand::AddTransaction {
                account_number: row.account_number.clone(),
                amount: row.amount,
                balance: row.balance,
                description: row.description.clone(),
                date: row.date,
            },
        );
        kinds.push(RowCommandKind::Transaction);
        proof {
            if rows_dates_wf(sheet.rows@) {
                assert(sheet.rows@[i as int].date.wf());
                assert forall|k: int| 0 <= k < commands@.len() implies (#[trigger] commands@[k] matches ImportCommand::AddTransaction { date, .. }
                    ==> date.wf()) by {
                    if k < c_before.len() {
                        assert(commands@[k] == c_before[k]);
                    }
                }
            }
            assert(command_views(commands@) =~= command_views(c_before).push(commands@.last()@));
            assert(kinds@ =~= command_views(commands@).map_values(|c: ImportCommandView| command_kind(c)));
        }
        i = i + 1;
    }
    proof {
        assert(rows.take(n as int) =~= rows);
    }
    (commands, kinds)
}

/// The number of transaction commands among the first `n` commands, and
/// how many of those succeeded.
pub open spec fn tally(
    kinds: Seq<RowCommandKind>,
    results: Seq<Result<u128, CommandError>>,
    n: int,
) -> (int, int)
    decreases n,
{
    if n <= 0 {
        (0, 0)
    } else {
        let before = tally(kinds, results, n - 1);
        if kinds[n - 1] == RowCommandKind::Transaction {
            if results[n - 1] is Ok {
                (before.0 + 1, before.1)
            } else {
                (before.0, before.1 + 1)
            }
        } else {
            before
        }
    }
}

/// Counts, over the commands that have both a kind and a result, the
/// transactions imported, the transactions not imported, and all
/// transactions.
pub fn tally_transaction_results(
    kinds: &[RowCommandKind],
    results: &[Result<u128, CommandError>],
) -> (r: (u64, u64, u64))
    ensures
        ({
            let n = if kinds@.len() < results@.len() {
                kinds@.len() as int
            } else {
                results@.len() as int
            };
            let t = tally(kinds@, results@, n);
            &&& r.0 == t.0
            &&& r.1 == t.1
            &&& r.2 == t.0 + t.1
        }),
{
    let n = if kinds.len() < results.len() {
        kinds.len()
    } else {
        results.len()
    };
    let mut imported: u64 = 0;
    let mut not_imported: u64 = 0;
    let mut total_rows: u64 = 0;
    let mut i: usize = 0;
    while i < n
        invariant
            n <= kinds@.len(),
            n <= results@.len(),
            0 <= i <= n,
            imported == tally(kinds@, results@, i as int).0,
            not_imported == tally(kinds@, results@, i as int).1,
            total_rows == imported + not_imported,
            imported + not_imported <= i,
        decreases n - i,
    {
        if kinds[i] == RowCommandKind::Transaction {
            total_rows += 1;
            if results[i].is_ok() {
                imported += 1;
            } else {
                not_imported += 1;
            }
        }
        i = i + 1;
    }
    (imported, not_imported, total_rows)
}

/// Law: an import opens each account at most once: no two account
/// creations of the plan are for the same account number, and every
/// account number queued has exactly the creations recorded in the set.
pub proof fn law_each_account_created_once(primary: Option<Seq<char>>, rows: Seq<ParsedRowView>)
    ensures
        forall|i: int, j: int|
            0 <= i < j < import_plan(primary, rows).0.len() && (#[trigger] import_plan(primary, rows).0[i]) is CreateBankAccount
                && (#[trigger] import_plan(primary, rows).0[j]) is CreateBankAccount
                ==> import_plan(primary, rows).0[i]->CreateBankAccount_account_number != import_plan(
                primary,
                rows,
            ).0[j]->CreateBankAccount_account_number,
        forall|i: int|
            0 <= i < import_plan(primary, rows).0.len() && (#[trigger] import_plan(primary, rows).0[i]) is CreateBankAccount
                ==> import_plan(primary, rows).1.contains(
                import_plan(primary, rows).0[i]->CreateBankAccount_account_number,
            ),
    decreases rows.len(),
{
    if rows.len() > 0 {
        law_each_account_created_once(primary, rows.drop_last());
    }
}

/// Law: an import adds exactly one transaction per row, in row order.
pub proof fn law_one_transaction_per_row(primary: Option<Seq<char>>, rows: Seq<ParsedRowView>)
    ensures
        import_plan(primary, rows).0.filter(|c: ImportCommandView| c is AddTransaction).len()
            == rows.len(),
    decreases rows.len(),
{
    let pred = |c: ImportCommandView| c is AddTransaction;
    if rows.len() > 0 {
        law_one_transaction_per_row(primary, rows.drop_last());
        let before = import_plan(primary, rows.drop_last());
        let row = rows.last();
        match row.counterpart_account_number {
            Some(c) => {
                if !before.1.contains(c) {
                    before.0.lemma_filter_len_push(
                        pred,
                        ImportCommandView::CreateBankAccount {
                            account_number: c,
                            description: imported_account_description(),
                        },
                    );
                }
            },
            None => {},
        }
        let with_account = match row.counterpart_account_number {
            Some(c) => queue_account(before, c),
            None => before,
        };
        with_account.0.lemma_filter_len_push(
            pred,
            ImportCommandView::AddTransaction {
                account_number: row.account_number,
                amount: row.amount,
                balance: row.balance,
                description: row.description,
                date: row.date,
            },
        );
    } else {
        reveal(Seq::filter);
        match primary {
            Some(p) => {
                Seq::<ImportCommandView>::empty().lemma_filter_len_push(
                    pred,
                    ImportCommandView::CreateBankAccount {
                        account_number: p,
                        description: imported_account_description(),
                    },
                );
            },
            None => {},
        }
    }
}

/// Law: the tally splits the transactions into imported and not imported.
pub proof fn law_tally_counts_transactions(
    kinds: Seq<RowCommandKind>,
    results: Seq<Result<u128, CommandError>>,
    n: int,
)
    requires
        0 <= n <= kinds.len(),
        n <= results.len(),
    ensures
        tally(kinds, results, n).0 + tally(kinds, results, n).1 == Seq::new(n as nat, |i: int| kinds[i]).filter(
            |k: RowCommandKind| k == RowCommandKind::Transaction,
        ).len(),
    decreases n,
{
    reveal(Seq::filter);
    if n > 0 {
        law_tally_counts_transactions(kinds, results, n - 1);
        assert(Seq::new(n as nat, |i: int| kinds[i]).drop_last() =~= Seq::new((n - 1) as nat, |i: int| kinds[i]));
    }
}

/// Transaction commands.
pub open spec fn is_transaction_command(c: ImportCommandView) -> bool {
    c is AddTransaction
}

/// Law: the transaction commands of an import plan are, in order, one per
/// row, each carrying exactly that row's account number, amount, balance,
/// description and date.
pub proof fn law_transactions_carry_their_rows(primary: Option<Seq<char>>, rows: Seq<ParsedRowView>)
    ensures
        ({
            let txs = import_plan(primary, rows).0.filter(|c: ImportCommandView| is_transaction_command(c));
            &&& txs.len() == rows.len()
            &&& forall|k: int|
                0 <= k < rows.len() ==> (#[trigger] txs[k] matches ImportCommandView::AddTransaction {
                    account_number,
                    amount,
                    balance,
                    description,
                    date,
                } && account_number == rows[k].account_number && amount == rows[k].amount && balance
                    == rows[k].balance && description == rows[k].description && date == rows[k].date)
        }),
    decreases rows.len(),
{
    let pred = |c: ImportCommandView| is_transaction_command(c);
    if rows.len() > 0 {
        let rest = rows.drop_last();
        law_transactions_carry_their_rows(primary, rest);
        let before = import_plan(primary, rest);
        let row = rows.last();
        match row.counterpart_account_number {
            Some(c) => {
                if !before.1.contains(c) {
                    before.0.lemma_filter_push(
                        ImportCommandView::CreateBankAccount {
                            account_number: c,
                            description: imported_account_description(),
                        },
                        pred,
                    );
                }
            },
            None => {},
        }
        let with_account = match row.counterpart_account_number {
            Some(c) => queue_account(before, c),
            None => before,
        };
        let cmd = ImportCommandView::AddTransaction {
            account_number: row.account_number,
            amount: row.amount,
            balance: row.balance,
            description: row.description,
            date: row.date,
        };
        with_account.0.lemma_filter_push(cmd, pred);
        let txs = import_plan(primary, rows).0.filter(pred);
        let old_txs = before.0.filter(pred);
        assert(with_account.0.filter(pred) == old_txs);
        assert(txs == old_txs.push(cmd));
        assert forall|k: int| 0 <= k < rows.len() implies (#[trigger] txs[k] matches ImportCommandView::AddTransaction {
            account_number,
            amount,
            balance,
            description,
            date,
        } && account_number == rows[k].account_number && amount == rows[k].amount && balance
            == rows[k].balance && description == rows[k].description && date == rows[k].date) by {
            if k < rows.len() - 1 {
                assert(txs[k] == old_txs[k]);
                assert(rows[k] == rest[k]);
            }
        }
    } else {
        reveal(Seq::filter);
        match primary {
            Some(p) => {
                Seq::<ImportCommandView>::empty().lemma_filter_push(
                    ImportCommandView::CreateBankAccount {
                        account_number: p,
                        description: imported_account_description(),
                    },
                    pred,
                );
                assert(Seq::<ImportCommandView>::empty().filter(pred) =~= Seq::<ImportCommandView>::empty());
            },
            None => {
                assert(Seq::<ImportCommandView>::empty().filter(pred) =~= Seq::<ImportCommandView>::empty());
            },
        }
    }
}

/// Law: an import creates an account (with the description of imported
/// accounts) for exactly the numbers that the statement names: its own
/// account, if it has one, and the counterpart account of each row.
pub proof fn law_accounts_created_are_those_named(primary: Option<Seq<char>>, rows: Seq<ParsedRowView>)
    ensures
        forall|s: Seq<char>|
            #[trigger] import_plan(primary, rows).1.contains(s) <==> (primary == Some(s) || exists|k: int|
                0 <= k < rows.len() && #[trigger] rows[k].counterpart_account_number == Some(s)),
        forall|s: Seq<char>|
            #[trigger] import_plan(primary, rows).1.contains(s) ==> exists|i: int|
                0 <= i < import_plan(primary, rows).0.len() && #[trigger] import_plan(primary, rows).0[i]
                    == (ImportCommandView::CreateBankAccount {
                    account_number: s,
                    description: imported_account_description(),
                }),
    decreases rows.len(),
{
    let plan = import_plan(primary, rows);
    if rows.len() > 0 {
        let rest = rows.drop_last();
        law_accounts_created_are_those_named(primary, rest);
        let before = import_plan(primary, rest);
        let row = rows.last();
        let with_account = match row.counterpart_account_number {
            Some(c) => queue_account(before, c),
            None => before,
        };
        assert forall|s: Seq<char>| #[trigger] plan.1.contains(s) <==> (primary == Some(s) || exists|k: int|
            0 <= k < rows.len() && #[trigger] rows[k].counterpart_account_number == Some(s)) by {
            if plan.1.contains(s) && primary != Some(s) {
                if before.1.contains(s) {
                    let k = choose|k: int| 0 <= k < rest.len() && #[trigger] rest[k].counterpart_account_number == Some(s);
                    assert(rows[k] == rest[k]);
                } else {
                    assert(rows[rows.len() - 1].counterpart_account_number == Some(s));
                }
            }
            if exists|k: int| 0 <= k < rows.len() && #[trigger] rows[k].counterpart_account_number == Some(s) {
                let k = choose|k: int| 0 <= k < rows.len() && #[trigger] rows[k].counterpart_account_number == Some(s);
                if k < rows.len() - 1 {
                    assert(rest[k] == rows[k]);
                    assert(before.1.contains(s));
                }
            }
        }
        assert forall|s: Seq<char>| #[trigger] plan.1.contains(s) implies exists|i: int|
            0 <= i < plan.0.len() && #[trigger] plan.0[i] == (ImportCommandView::CreateBankAccount {
                account_number: s,
                description: imported_account_description(),
            }) by {
            if before.1.contains(s) {
                let i = choose|i: int| 0 <= i < before.0.len() && #[trigger] before.0[i] == (ImportCommandView::CreateBankAccount {
                    account_number: s,
                    description: imported_account_description(),
                });
                assert(with_account.0[i] == before.0[i]);
                assert(plan.0[i] == with_account.0[i]);
            } else {
                let i = before.0.len() as int;
                assert(plan.0[i] == with_account.0[i]);
            }
        }
    } else {
        match primary {
            Some(p) => {
                assert(plan.0[0] == (ImportCommandView::CreateBankAccount {
                    account_number: p,
                    description: imported_account_description(),
                }));
            },
            None => {},
        }
    }
}

} // verus!
