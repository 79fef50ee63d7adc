use vstd::prelude::*;

use crate::account::Account;
use crate::account::AccountType;
use crate::account::AccountV;
use crate::account::spec_encode_account;
use crate::config::RepoConfig;
use crate::config::RepoConfigV;
use crate::kv::kv_line;
use crate::text::dec_digits;
use crate::text::dec_int;
use crate::text::digit_char;
use crate::text::digit_char_exec;
use crate::text::join_nl;
use crate::text::push_dec_u64;
use crate::text::push_quoted;
use crate::text::push_str_chars;
use crate::text::quoted;
use crate::text::str_chars;
use crate::text::chars_string;
use crate::text::views_of;
use crate::text::push_joined;
use crate::text::push_dec_i64;
use crate::text::chars_eq;
use crate::text::subrange_chars;
use crate::text::canonical_digits;
use crate::text::digits_val;
use crate::text::int_digits;
use crate::text::int_val;
use crate::text::find_line;
use crate::text::lemma_find_line;
use crate::text::lemma_find_line_of;
use crate::text::msg_lines;
use crate::text::msg_lines_exec;
use crate::text::parse_quoted;
use crate::text::parse_quoted_chars;
use crate::text::parse_i32_digits;
use crate::text::parse_u64_digits;
use crate::error::Error;
use crate::kv::LineKind;
use crate::kv::LineParts;
use crate::kv::classify_line;
use crate::kv::classify_parts;
use crate::account::spec_parse_account;
use crate::account::account_wf;
use crate::account::lemma_account_encode_parse;
use crate::text::is_ws_char;
use crate::text::joinable_lines;
use crate::text::lemma_dec_digits;
use crate::text::lemma_dec_int;
use crate::text::lemma_digits_safe;
use crate::text::lemma_esc_str_safe;
use crate::text::lemma_msg_lines_join;
use crate::text::lemma_parse_quoted;
use crate::text::lemma_safe_concat;
use crate::text::line_safe;
use crate::kv::lemma_classify_header;
use crate::kv::lemma_classify_kv;

verus! {

/// Free-form tagging for point-of-sale line items.
#[derive(Debug, PartialEq, Eq)]
pub struct TransactionMeta {
    pub class: Option<String>,
    pub ean: Option<u64>,
}

/// One economic event: value moves from one account to another. A
/// transaction with amount `0` towards a user account registers that user
/// without moving value.
#[derive(Debug, PartialEq, Eq)]
pub struct Transaction {
    pub from: Account,
    pub to: Account,
    pub amount: i32,
    pub description: Option<String>,
    pub meta: Option<TransactionMeta>,
}

/// The mathematical value of a [`TransactionMeta`].
#[verifier::ext_equal]
pub ghost struct MetaV {
    pub class: Option<Seq<char>>,
    pub ean: Option<u64>,
}

/// The mathematical value of a [`Transaction`].
#[verifier::ext_equal]
pub ghost struct TransactionV {
    pub from: AccountV,
    pub to: AccountV,
    pub amount: i32,
    pub description: Option<Seq<char>>,
    pub meta: Option<MetaV>,
}

impl View for TransactionMeta {
    type V = MetaV;

    open spec fn view(&self) -> MetaV {
        MetaV {
            class: match self.class {
                Some(c) => Some(c@),
                None => None,
            },
            ean: self.ean,
        }
    }
}

impl View for Transaction {
    type V = TransactionV;

    open spec fn view(&self) -> TransactionV {
        TransactionV {
            from: self.from@,
            to: self.to@,
            amount: self.amount,
            description: match self.description {
                Some(d) => Some(d@),
                None => None,
            },
            meta: match self.meta {
                Some(m) => Some(m@),
                None => None,
            },
        }
    }
}

impl Clone for TransactionMeta {
    fn clone(&self) -> (r: Self)
        ensures
            r@ == self@,
    {
        TransactionMeta {
            class: match &self.class {
                Some(c) => Some(c.clone()),
                None => None,
            },
            ean: self.ean,
        }
    }
}

impl Clone for Transaction {
    fn clone(&self) -> (r: Self)
        ensures
            r@ == self@,
    {
        Transaction {
            from: self.from.clone(),
            to: self.to.clone(),
            amount: self.amount,
            description: match &self.description {
                Some(d) => Some(d.clone()),
                None => None,
            },
            meta: match &self.meta {
                Some(m) => Some(m.clone()),
                None => None,
            },
        }
    }
}

// --- The commit-message wire format ---

/// The first-line prefix that marks a commit as ledger data.
pub open spec fn marker() -> Seq<char> {
    seq!['T', 'r', 'a', 'n', 's', 'a', 'c', 't', 'i', 'o', 'n', ':', ' ']
}

/// Whether a commit message carries ledger data: its first line starts with
/// the marker.
pub open spec fn is_ledger_message(s: Seq<char>) -> bool {
    s.len() >= 13 && s.take(13) == marker()
}

/// The fence line that delimits the structured payload.
pub open spec fn fence() -> Seq<char> {
    seq!['-', '-', '-']
}

pub open spec fn key_from() -> Seq<char> {
    seq!['f', 'r', 'o', 'm']
}

pub open spec fn key_to() -> Seq<char> {
    seq!['t', 'o']
}

pub open spec fn key_amount() -> Seq<char> {
    seq!['a', 'm', 'o', 'u', 'n', 't']
}

pub open spec fn key_description() -> Seq<char> {
    seq!['d', 'e', 's', 'c', 'r', 'i', 'p', 't', 'i', 'o', 'n']
}

pub open spec fn key_class() -> Seq<char> {
    seq!['c', 'l', 'a', 's', 's']
}

pub open spec fn key_ean() -> Seq<char> {
    seq!['e', 'a', 'n']
}

pub open spec fn meta_header() -> Seq<char> {
    seq!['[', 'm', 'e', 't', 'a', ']']
}

/// The debug-style name of an account type, as rendered in summaries.
pub open spec fn kind_name(t: AccountType) -> Seq<char> {
    match t {
        AccountType::User => seq!['U', 's', 'e', 'r'],
        AccountType::PointOfSale => seq![
            'P',
            'o',
            'i',
            'n',
            't',
            'O',
            'f',
            'S',
            'a',
            'l',
            'e',
        ],
        AccountType::Source => seq!['S', 'o', 'u', 'r', 'c', 'e'],
    }
}

/// Two zero-padded digits for a fraction between 0 and 99.
pub open spec fn two_digits(f: int) -> Seq<char> {
    seq![digit_char(f / 10), digit_char(f % 10)]
}

/// The amount in major currency units, to two decimal places: the scaled
/// magnitude `|amount| * 100 / divisor` (truncated), signed.
pub open spec fn money_str(amount: int, divisor: int) -> Seq<char> {
    let mag = (if amount < 0 {
        -amount
    } else {
        amount
    }) * 100 / divisor;
    let digits = dec_digits((mag / 100) as nat) + seq!['.'] + two_digits(mag % 100);
    if amount < 0 {
        seq!['-'] + digits
    } else {
        digits
    }
}

/// The human-readable summary line of a transaction: an account-creation
/// notice for a zero-amount transfer to a user, otherwise who pays whom how
/// much.
pub open spec fn spec_summary(t: TransactionV, c: RepoConfigV) -> Seq<char> {
    if t.amount == 0 && t.to.account_type == AccountType::User {
        marker() + seq!['A', 'd', 'd', ' ', 'u', 's', 'e', 'r', ' '] + t.to.name
    } else {
        marker() + kind_name(t.from.account_type) + seq![' '] + t.from.name + seq![
            ' ',
            'p',
            'a',
            'y',
            's',
            ' ',
        ] + money_str(t.amount as int, c.currency.divisor as int) + seq![' '] + c.currency.code
            + seq![' ', 't', 'o', ' '] + kind_name(t.to.account_type) + seq![' '] + t.to.name
    }
}

/// The structured payload lines embedded between the fences: `from`, `to`
/// and `amount`, then the optional description, then the optional meta
/// table.
pub open spec fn payload_lines(t: TransactionV) -> Seq<Seq<char>> {
    let base = seq![
        kv_line(key_from(), quoted(spec_encode_account(t.from))),
        kv_line(key_to(), quoted(spec_encode_account(t.to))),
        kv_line(key_amount(), dec_int(t.amount as int)),
    ];
    let with_desc = match t.description {
        Some(d) => base.push(kv_line(key_description(), quoted(d))),
        None => base,
    };
    match t.meta {
        None => with_desc,
        Some(m) => {
            let h = with_desc.push(meta_header());
            let wc = match m.class {
                Some(c) => h.push(kv_line(key_class(), quoted(c))),
                None => h,
            };
            match m.ean {
                Some(e) => wc.push(kv_line(key_ean(), dec_digits(e as nat))),
                None => wc,
            }
        },
    }
}

/// The whole commit message for a transaction: the summary line, a blank
/// line, and the payload between fences.
pub open spec fn spec_message(t: TransactionV, c: RepoConfigV) -> Seq<char> {
    join_nl(
        seq![spec_summary(t, c), Seq::<char>::empty(), fence()] + payload_lines(t) + seq![fence()],
    )
}

/// The views of the wire-format literals equal their sequence spellings.
pub proof fn lemma_wire_literals()
    ensures
        "from"@ == key_from(),
        "to"@ == key_to(),
        "amount"@ == key_amount(),
        "description"@ == key_description(),
        "class"@ == key_class(),
        "ean"@ == key_ean(),
        "[meta]"@ == meta_header(),
        "---"@ == fence(),
        " = "@ == seq![' ', '=', ' '],
        "Transaction: "@ == marker(),
        "Add user "@ == seq!['A', 'd', 'd', ' ', 'u', 's', 'e', 'r', ' '],
        " pays "@ == seq![' ', 'p', 'a', 'y', 's', ' '],
        " to "@ == seq![' ', 't', 'o', ' '],
        " "@ == seq![' '],
        "User"@ == kind_name(AccountType::User),
        "PointOfSale"@ == kind_name(AccountType::PointOfSale),
        "Source"@ == kind_name(AccountType::Source),
{
    reveal_strlit("from");
    reveal_strlit("to");
    reveal_strlit("amount");
    reveal_strlit("description");
    reveal_strlit("class");
    reveal_strlit("ean");
    reveal_strlit("[meta]");
    reveal_strlit("---");
    reveal_strlit(" = ");
    reveal_strlit("Transaction: ");
    reveal_strlit("Add user ");
    reveal_strlit(" pays ");
    reveal_strlit(" to ");
    reveal_strlit(" ");
    reveal_strlit("User");
    reveal_strlit("PointOfSale");
    reveal_strlit("Source");
    assert("from"@ =~= key_from());
    assert("to"@ =~= key_to());
    assert("amount"@ =~= key_amount());
    assert("description"@ =~= key_description());
    assert("class"@ =~= key_class());
    assert("ean"@ =~= key_ean());
    assert("[meta]"@ =~= meta_header());
    assert("---"@ =~= fence());
    assert(" = "@ =~= seq![' ', '=', ' ']);
    assert("Transaction: "@ =~= marker());
    assert("Add user "@ =~= seq!['A', 'd', 'd', ' ', 'u', 's', 'e', 'r', ' ']);
    assert(" pays "@ =~= seq![' ', 'p', 'a', 'y', 's', ' ']);
    assert(" to "@ =~= seq![' ', 't', 'o', ' ']);
    assert(" "@ =~= seq![' ']);
    assert("User"@ =~= kind_name(AccountType::User));
    assert("PointOfSale"@ =~= kind_name(AccountType::PointOfSale));
    assert("Source"@ =~= kind_name(AccountType::Source));
}

/// Whether a commit message (given as a string) carries ledger data.
pub fn starts_with_marker(s: &str) -> (r: bool)
    ensures
        r == is_ledger_message(s@),
{
    let v = str_chars(s);
    if v.len() < 13 {
        return false;
    }
    let head = subrange_chars(&v, 0, 13);
    let m = str_chars("Transaction: ");
    proof {
        lemma_wire_literals();
        assert(head@ =~= s@.take(13));
    }
    chars_eq(&head, &m)
}

/// Appends the two-decimal rendering of the amount to `out`.
fn push_money(out: &mut Vec<char>, amount: i32, divisor: usize)
    requires
        divisor > 0,
    ensures
        final(out)@ == old(out)@ + money_str(amount as int, divisor as int),
{
    let mag_base: u64 = if amount < 0 {
        (-(amount as i64)) as u64
    } else {
        amount as u64
    };
    let mag: u64 = (mag_base * 100) / (divisor as u64);
    if amount < 0 {
        out.push('-');
    }
    push_dec_u64(out, mag / 100);
    out.push('.');
    let frac = mag % 100;
    out.push(digit_char_exec(frac / 10));
    out.push(digit_char_exec(frac % 10));
    proof {
        assert(out@ =~= old(out)@ + money_str(amount as int, divisor as int));
    }
}

impl Transaction {
    /// The characters of the summary line.
    fn summary_chars(&self, config: &RepoConfig) -> (r: Vec<char>)
        requires
            config@.currency.divisor > 0,
        ensures
            r@ == spec_summary(self@, config@),
    {
        proof {
            lemma_wire_literals();
        }
        let mut out: Vec<char> = Vec::new();
        push_str_chars(&mut out, "Transaction: ");
        if self.amount == 0 && self.to.account_type == AccountType::User {
            push_str_chars(&mut out, "Add user ");
            push_str_chars(&mut out, self.to.name.as_str());
            proof {
                assert(out@ =~= spec_summary(self@, config@));
            }
        } else {
            let from_name = match self.from.account_type {
                AccountType::User => "User",
                AccountType::PointOfSale => "PointOfSale",
                AccountType::Source => "Source",
            };
            push_str_chars(&mut out, from_name);
            push_str_chars(&mut out, " ");
            push_str_chars(&mut out, self.from.name.as_str());
            push_str_chars(&mut out, " pays ");
            push_money(&mut out, self.amount, config.currency.divisor);
            push_str_chars(&mut out, " ");
            push_str_chars(&mut out, config.currency.code.as_str());
            push_str_chars(&mut out, " to ");
            let to_name = match self.to.account_type {
                AccountType::User => "User",
                AccountType::PointOfSale => "PointOfSale",
                AccountType::Source => "Source",
            };
            push_str_chars(&mut out, to_name);
            push_str_chars(&mut out, " ");
            push_str_chars(&mut out, self.to.name.as_str());
            proof {
                assert(out@ =~= spec_summary(self@, config@));
            }
        }
        out
    }

    /// The human-readable summary line of this transaction.
    pub fn summary(&self, config: &RepoConfig) -> (r: String)
        requires
            config@.currency.divisor > 0,
        ensures
            r@ == spec_summary(self@, config@),
    {
        let chars = self.summary_chars(config);
        chars_string(&chars)
    }

    /// The payload lines embedded between the fences.
    fn payload_lines_exec(&self) -> (r: Vec<Vec<char>>)
        ensures
            views_of(r@) == payload_lines(self@),
    {
        proof {
            lemma_wire_literals();
        }
        let mut lines: Vec<Vec<char>> = Vec::new();

        let mut l: Vec<char> = Vec::new();
        push_str_chars(&mut l, "from");
        push_str_chars(&mut l, " = ");
        let enc_from = self.from.encode();
        let enc_from_chars = str_chars(enc_from.as_str());
        push_quoted(&mut l, &enc_from_chars);
        proof {
            assert(l@ =~= kv_line(key_from(), quoted(spec_encode_account(self@.from))));
        }
        lines.push(l);

        let mut l2: Vec<char> = Vec::new();
        push_str_chars(&mut l2, "to");
        push_str_chars(&mut l2, " = ");
        let enc_to = self.to.encode();
        let enc_to_chars = str_chars(enc_to.as_str());
        push_quoted(&mut l2, &enc_to_chars);
        proof {
            assert(l2@ =~= kv_line(key_to(), quoted(spec_encode_account(self@.to))));
        }
        lines.push(l2);

        let mut l3: Vec<char> = Vec::new();
        push_str_chars(&mut l3, "amount");
        push_str_chars(&mut l3, " = ");
        push_dec_i64(&mut l3, self.amount as i64);
        proof {
            assert(l3@ =~= kv_line(key_amount(), dec_int(self@.amount as int)));
        }
        lines.push(l3);

        let ghost base = seq![
            kv_line(key_from(), quoted(spec_encode_account(self@.from))),
            kv_line(key_to(), quoted(spec_encode_account(self@.to))),
            kv_line(key_amount(), dec_int(self@.amount as int)),
        ];
        proof {
            assert(views_of(lines@) =~~= base);
        }

        if let Some(d) = &self.description {
            let mut l4: Vec<char> = Vec::new();
            push_str_chars(&mut l4, "description");
            push_str_chars(&mut l4, " = ");
            let d_chars = str_chars(d.as_str());
            push_quoted(&mut l4, &d_chars);
            proof {
                assert(l4@ =~= kv_line(key_description(), quoted(self@.description->0)));
            }
            lines.push(l4);
        }
        let ghost with_desc = match self@.description {
            Some(d) => base.push(kv_line(key_description(), quoted(d))),
            None => base,
        };
        proof {
            assert(views_of(lines@) =~~= with_desc);
        }

        if let Some(m) = &self.meta {
            let mut lh: Vec<char> = Vec::new();
            push_str_chars(&mut lh, "[meta]");
            proof {
                assert(lh@ =~= meta_header());
            }
            lines.push(lh);
            let ghost h = with_desc.push(meta_header());
            if let Some(c) = &m.class {
                let mut lc: Vec<char> = Vec::new();
                push_str_chars(&mut lc, "class");
                push_str_chars(&mut lc, " = ");
                let c_chars = str_chars(c.as_str());
                push_quoted(&mut lc, &c_chars);
                proof {
                    assert(lc@ =~= kv_line(key_class(), quoted(self@.meta->0.class->0)));
                }
                lines.push(lc);
            }
            let ghost wc = match self@.meta->0.class {
                Some(c) => h.push(kv_line(key_class(), quoted(c))),
                None => h,
            };
            proof {
                assert(views_of(lines@) =~~= wc);
            }
            if let Some(e) = m.ean {
                let mut le: Vec<char> = Vec::new();
                push_str_chars(&mut le, "ean");
                push_str_chars(&mut le, " = ");
                push_dec_u64(&mut le, e);
                proof {
                    assert(le@ =~= kv_line(key_ean(), dec_digits(self@.meta->0.ean->0 as nat)));
                }
                lines.push(le);
            }
            proof {
                assert(views_of(lines@) =~~= payload_lines(self@));
            }
        } else {
            proof {
                assert(views_of(lines@) =~~= payload_lines(self@));
            }
        }
        lines
    }

    /// The whole commit message for this transaction: summary line, blank
    /// line, and the payload between fences.
    pub fn commit_message(&self, config: &RepoConfig) -> (r: String)
        requires
            config@.currency.divisor > 0,
        ensures
            r@ == spec_message(self@, config@),
    {
        proof {
            lemma_wire_literals();
        }
        let mut lines: Vec<Vec<char>> = Vec::new();
        lines.push(self.summary_chars(config));
        lines.push(Vec::new());
        lines.push(str_chars("---"));
        let mut payload = self.payload_lines_exec();
        let ghost payload_view = views_of(payload@);
        lines.append(&mut payload);
        lines.push(str_chars("---"));
        proof {
            assert(views_of(lines@) =~~= seq![
                spec_summary(self@, config@),
                Seq::<char>::empty(),
                fence(),
            ] + payload_lines(self@) + seq![fence()]);
        }
        let mut out: Vec<char> = Vec::new();
        push_joined(&mut out, &lines);
        chars_string(&out)
    }
}

// --- Decoding a commit message back into a transaction ---

/// Which table of the payload a line belongs to.
#[derive(Clone, Copy, Debug)]
pub enum Section {
    /// Before any table header.
    Top,
    /// Inside the `[meta]` table.
    Meta,
    /// Inside an unrecognized table, whose keys are ignored.
    Other,
}

/// The state of the payload fold: each field of the record, none seen yet at
/// the start.
#[verifier::ext_equal]
pub ghost struct PartialTx {
    pub from: Option<AccountV>,
    pub to: Option<AccountV>,
    pub amount: Option<i32>,
    pub description: Option<Seq<char>>,
    pub class: Option<Seq<char>>,
    pub ean: Option<u64>,
    pub meta_seen: bool,
    pub section: Section,
}

pub open spec fn init_partial() -> PartialTx {
    PartialTx {
        from: None,
        to: None,
        amount: None,
        description: None,
        class: None,
        ean: None,
        meta_seen: false,
        section: Section::Top,
    }
}

/// Folds one payload line into the partial record. `None` is a parse
/// failure: a malformed line, a duplicate key or table, or an invalid value
/// under a recognized key. Unrecognized keys and tables are ignored.
pub open spec fn apply_line(st: PartialTx, l: Seq<char>) -> Option<PartialTx> {
    match classify_line(l) {
        LineKind::Blank => Some(st),
        LineKind::Bad => None,
        LineKind::Header(h) => if h == meta_header() {
            if st.meta_seen {
                None
            } else {
                Some(PartialTx { section: Section::Meta, meta_seen: true, ..st })
            }
        } else {
            Some(PartialTx { section: Section::Other, ..st })
        },
        LineKind::Pair(k, w) => match st.section {
            Section::Top => if k == key_from() {
                if st.from is Some {
                    None
                } else {
                    match parse_quoted(w) {
                        Some(q) => match spec_parse_account(q) {
                            Some(a) => Some(PartialTx { from: Some(a), ..st }),
                            None => None,
                        },
                        None => None,
                    }
                }
            } else if k == key_to() {
                if st.to is Some {
                    None
                } else {
                    match parse_quoted(w) {
                        Some(q) => match spec_parse_account(q) {
                            Some(a) => Some(PartialTx { to: Some(a), ..st }),
                            None => None,
                        },
                        None => None,
                    }
                }
            } else if k == key_amount() {
                if st.amount is Some {
                    None
                } else if int_digits(w) && i32::MIN <= int_val(w) <= i32::MAX {
                    Some(PartialTx { amount: Some(int_val(w) as i32), ..st })
                } else {
                    None
                }
            } else if k == key_description() {
                if st.description is Some {
                    None
                } else {
                    match parse_quoted(w) {
                        Some(q) => Some(PartialTx { description: Some(q), ..st }),
                        None => None,
                    }
                }
            } else {
                Some(st)
            },
            Section::Meta => if k == key_class() {
                if st.class is Some {
                    None
                } else {
                    match parse_quoted(w) {
                        Some(q) => Some(PartialTx { class: Some(q), ..st }),
                        None => None,
                    }
                }
            } else if k == key_ean() {
                if st.ean is Some {
                    None
                } else if canonical_digits(w) && digits_val(w) <= u64::MAX {
                    Some(PartialTx { ean: Some(digits_val(w) as u64), ..st })
                } else {
                    None
                }
            } else {
                Some(st)
            },
            Section::Other => Some(st),
        },
    }
}

/// Folds all payload lines, left to right.
pub open spec fn parse_payload_lines(ls: Seq<Seq<char>>) -> Option<PartialTx>
    decreases ls.len(),
{
    if ls.len() == 0 {
        Some(init_partial())
    } else {
        match parse_payload_lines(ls.drop_last()) {
            Some(st) => apply_line(st, ls.last()),
            None => None,
        }
    }
}

/// Once a prefix of the fold fails, the whole fold fails.
pub proof fn lemma_parse_prefix_none(ls: Seq<Seq<char>>, k: int)
    requires
        0 <= k <= ls.len(),
        parse_payload_lines(ls.take(k)) is None,
    ensures
        parse_payload_lines(ls) is None,
    decreases ls.len() - k,
{
    if k < ls.len() {
        assert(ls.take(k + 1).drop_last() =~= ls.take(k));
        lemma_parse_prefix_none(ls, k + 1);
    } else {
        assert(ls.take(k) =~= ls);
    }
}

/// The completed record, requiring `from`, `to` and `amount`; the meta table
/// exists exactly when its header was seen.
pub open spec fn finish_partial(st: PartialTx) -> Option<TransactionV> {
    if st.from is Some && st.to is Some && st.amount is Some {
        Some(
            TransactionV {
                from: st.from->0,
                to: st.to->0,
                amount: st.amount->0,
                description: st.description,
                meta: if st.meta_seen {
                    Some(MetaV { class: st.class, ean: st.ean })
                } else {
                    None
                },
            },
        )
    } else {
        None
    }
}

/// The payload: the lines strictly between the first fence line and the next
/// fence line (or the end of the message); empty when there is no fence.
pub open spec fn payload_of(ls: Seq<Seq<char>>) -> Seq<Seq<char>> {
    let i = find_line(ls, fence());
    if i < 0 {
        Seq::empty()
    } else {
        let rest = ls.skip(i + 1);
        let j = find_line(rest, fence());
        if j < 0 {
            rest
        } else {
            rest.take(j)
        }
    }
}

/// The transaction embedded in a commit message, if the payload parses.
pub open spec fn spec_extract(msg: Seq<char>) -> Option<TransactionV> {
    match parse_payload_lines(payload_of(msg_lines(msg))) {
        Some(st) => finish_partial(st),
        None => None,
    }
}

/// The runtime state of the payload fold.
struct PartialState {
    from: Option<Account>,
    to: Option<Account>,
    amount: Option<i32>,
    description: Option<String>,
    class: Option<String>,
    ean: Option<u64>,
    meta_seen: bool,
    section: Section,
}

impl View for PartialState {
    type V = PartialTx;

    closed spec fn view(&self) -> PartialTx {
        PartialTx {
            from: match self.from {
                Some(a) => Some(a@),
                None => None,
            },
            to: match self.to {
                Some(a) => Some(a@),
                None => None,
            },
            amount: self.amount,
            description: match self.description {
                Some(d) => Some(d@),
                None => None,
            },
            class: match self.class {
                Some(c) => Some(c@),
                None => None,
            },
            ean: self.ean,
            meta_seen: self.meta_seen,
            section: self.section,
        }
    }
}

/// A parse-failure error for a malformed payload.
fn payload_error() -> (r: Error)
    ensures
        r is TransactionParseError,
{
    Error::TransactionParseError(String::from_str("Invalid TOML transaction data"))
}

/// Folds one payload line into the runtime state.
fn apply_parts(st: &mut PartialState, line: &Vec<char>) -> (r: Result<(), Error>)
    ensures
        match r {
            Ok(()) => apply_line(old(st)@, line@) == Some(final(st)@),
            Err(e) => apply_line(old(st)@, line@) is None && e is TransactionParseError,
        },
{
    proof {
        lemma_wire_literals();
    }
    match classify_parts(line) {
        LineParts::Blank => Ok(()),
        LineParts::Bad => Err(payload_error()),
        LineParts::Header(h) => {
            if chars_eq(&h, &str_chars("[meta]")) {
                if st.meta_seen {
                    Err(payload_error())
                } else {
                    st.meta_seen = true;
                    st.section = Section::Meta;
                    Ok(())
                }
            } else {
                st.section = Section::Other;
                Ok(())
            }
        },
        LineParts::Pair(k, w) => {
            match st.section {
                Section::Top => {
                    if chars_eq(&k, &str_chars("from")) {
                        if st.from.is_some() {
                            return Err(payload_error());
                        }
                        match parse_quoted_chars(&w, 0, w.len()) {
                            Some(q) => {
                                proof {
                                    assert(w@.subrange(0, w@.len() as int) =~= w@);
                                }
                                let qs = chars_string(&q);
                                match Account::parse(qs.as_str()) {
                                    Ok(a) => {
                                        st.from = Some(a);
                                        Ok(())
                                    },
                                    Err(_) => Err(payload_error()),
                                }
                            },
                            None => {
                                proof {
                                    assert(w@.subrange(0, w@.len() as int) =~= w@);
                                }
                                Err(payload_error())
                            },
                        }
                    } else if chars_eq(&k, &str_chars("to")) {
                        if st.to.is_some() {
                            return Err(payload_error());
                        }
                        match parse_quoted_chars(&w, 0, w.len()) {
                            Some(q) => {
                                proof {
                                    assert(w@.subrange(0, w@.len() as int) =~= w@);
                                }
                                let qs = chars_string(&q);
                                match Account::parse(qs.as_str()) {
                                    Ok(a) => {
                                        st.to = Some(a);
                                        Ok(())
                                    },
                                    Err(_) => Err(payload_error()),
                                }
                            },
                            None => {
                                proof {
                                    assert(w@.subrange(0, w@.len() as int) =~= w@);
                                }
                                Err(payload_error())
                            },
                        }
                    } else if chars_eq(&k, &str_chars("amount")) {
                        if st.amount.is_some() {
                            return Err(payload_error());
                        }
                        proof {
                            assert(w@.subrange(0, w@.len() as int) =~= w@);
                        }
                        match parse_i32_digits(&w, 0, w.len()) {
                            Some(n) => {
                                st.amount = Some(n);
                                Ok(())
                            },
                            None => Err(payload_error()),
                        }
                    } else if chars_eq(&k, &str_chars("description")) {
                        if st.description.is_some() {
                            return Err(payload_error());
                        }
                        match parse_quoted_chars(&w, 0, w.len()) {
                            Some(q) => {
                                proof {
                                    assert(w@.subrange(0, w@.len() as int) =~= w@);
                                }
                                st.description = Some(chars_string(&q));
                                Ok(())
                            },
                            None => {
                                proof {
                                    assert(w@.subrange(0, w@.len() as int) =~= w@);
                                }
                                Err(payload_error())
                            },
                        }
                    } else {
                        Ok(())
                    }
                },
                Section::Meta => {
                    if chars_eq(&k, &str_chars("class")) {
                        if st.class.is_some() {
                            return Err(payload_error());
                        }
                        match parse_quoted_chars(&w, 0, w.len()) {
                            Some(q) => {
                                proof {
                                    assert(w@.subrange(0, w@.len() as int) =~= w@);
                                }
                                st.class = Some(chars_string(&q));
                                Ok(())
                            },
                            None => {
                                proof {
                                    assert(w@.subrange(0, w@.len() as int) =~= w@);
                                }
                                Err(payload_error())
                            },
                        }
                    } else if chars_eq(&k, &str_chars("ean")) {
                        if st.ean.is_some() {
                            return Err(payload_error());
                        }
                        proof {
                            assert(w@.subrange(0, w@.len() as int) =~= w@);
                        }
                        match parse_u64_digits(&w, 0, w.len()) {
                            Some(n) => {
                                st.ean = Some(n);
                                Ok(())
                            },
                            None => Err(payload_error()),
                        }
                    } else {
                        Ok(())
                    }
                },
                Section::Other => Ok(()),
            }
        },
    }
}

/// Extracts the transaction embedded in a commit message: collects the lines
/// between the fences and parses them as the payload record.
#[verifier::loop_isolation(false)]
pub fn extract_transaction(commit_message: &str) -> (r: Result<Transaction, Error>)
    ensures
        match r {
            Ok(t) => spec_extract(commit_message@) == Some(t@),
            Err(e) => spec_extract(commit_message@) is None && e is TransactionParseError,
        },
{
    proof {
        lemma_wire_literals();
    }
    let v = str_chars(commit_message);
    let lines = msg_lines_exec(&v);
    let ghost ls = msg_lines(commit_message@);
    let fence_v = str_chars("---");
    let mut i: usize = 0;
    while i < lines.len() && !chars_eq(&lines[i], &fence_v)
        invariant
            i <= ls.len(),
            forall|j: int| 0 <= j < i ==> ls[j] != fence(),
        decreases ls.len() - i,
    {
        proof {
            assert(ls[i as int] == lines@[i as int]@);
        }
        i = i + 1;
    }
    let mut pl: Vec<Vec<char>> = Vec::new();
    if i == lines.len() {
        proof {
            lemma_find_line(ls, fence());
            if find_line(ls, fence()) >= 0 {
                assert(ls[find_line(ls, fence())] == fence());
            }
            assert(payload_of(ls) =~~= views_of(pl@));
        }
    } else {
        proof {
            assert(ls[i as int] == lines@[i as int]@);
            lemma_find_line_of(ls, fence(), i as int);
        }
        let ghost rest = ls.skip(i as int + 1);
        let mut j: usize = i + 1;
        while j < lines.len() && !chars_eq(&lines[j], &fence_v)
            invariant
                i + 1 <= j <= ls.len(),
                views_of(pl@) == rest.take(j - i - 1),
                forall|m: int| 0 <= m < j - i - 1 ==> rest[m] != fence(),
            decreases ls.len() - j,
        {
            proof {
                assert(ls[j as int] == lines@[j as int]@);
                assert(rest[j - i - 1] == ls[j as int]);
            }
            let line_ref = &lines[j];
            let copy = subrange_chars(line_ref, 0, line_ref.len());
            proof {
                assert(copy@ =~= ls[j as int]);
            }
            pl.push(copy);
            j = j + 1;
            proof {
                assert(views_of(pl@) =~~= rest.take(j - i - 1));
            }
        }
        proof {
            if j < lines.len() {
                assert(ls[j as int] == lines@[j as int]@);
                assert(rest[j - i - 1] == ls[j as int]);
                lemma_find_line_of(rest, fence(), j - i - 1);
                assert(payload_of(ls) =~~= views_of(pl@));
            } else {
                lemma_find_line(rest, fence());
                if find_line(rest, fence()) >= 0 {
                    assert(rest[find_line(rest, fence())] == fence());
                }
                assert(rest.take(rest.len() as int) =~= rest);
                assert(payload_of(ls) =~~= views_of(pl@));
            }
        }
    }
    let ghost payload = payload_of(ls);
    let mut st = PartialState {
        from: None,
        to: None,
        amount: None,
        description: None,
        class: None,
        ean: None,
        meta_seen: false,
        section: Section::Top,
    };
    proof {
        assert(st@ =~= init_partial());
        assert(payload.take(0) =~= Seq::<Seq<char>>::empty());
    }
    let mut idx: usize = 0;
    while idx < pl.len()
        invariant
            idx <= pl@.len(),
            payload == views_of(pl@),
            parse_payload_lines(payload.take(idx as int)) == Some(st@),
        decreases pl@.len() - idx,
    {
        proof {
            assert(payload[idx as int] == pl@[idx as int]@);
            assert(payload.take(idx as int + 1).drop_last() =~= payload.take(idx as int));
            assert(payload.take(idx as int + 1).last() == payload[idx as int]);
        }
        match apply_parts(&mut st, &pl[idx]) {
            Ok(()) => {},
            Err(e) => {
                proof {
                    lemma_parse_prefix_none(payload, idx as int + 1);
                }
                return Err(e);
            },
        }
        idx = idx + 1;
    }
    proof {
        assert(payload.take(payload.len() as int) =~= payload);
    }
    let PartialState { from, to, amount, description, class, ean, meta_seen, section: _section } =
        st;
    match (from, to, amount) {
        (Some(f), Some(t), Some(a)) => {
            let tx = Transaction {
                from: f,
                to: t,
                amount: a,
                description,
                meta: if meta_seen {
                    Some(TransactionMeta { class, ean })
                } else {
                    None
                },
            };
            proof {
                assert(spec_extract(commit_message@) == Some(tx@));
            }
            Ok(tx)
        },
        _ => Err(payload_error()),
    }
}

// --- The encode/decode round trip ---

/// A line that can stand inside the message body: line-safe, non-empty, and
/// not beginning with a dash (so it cannot be mistaken for a fence).
pub open spec fn good_line(l: Seq<char>) -> bool {
    line_safe(l) && l.len() > 0 && l[0] != '-'
}

pub open spec fn all_good(ls: Seq<Seq<char>>) -> bool {
    forall|i: int| 0 <= i < ls.len() ==> good_line(ls[i])
}

proof fn lemma_good_push(ls: Seq<Seq<char>>, l: Seq<char>)
    requires
        all_good(ls),
        good_line(l),
    ensures
        all_good(ls.push(l)),
{
    assert forall|i: int| 0 <= i < ls.push(l).len() implies good_line(ls.push(l)[i]) by {
        if i < ls.len() {
            assert(ls.push(l)[i] == ls[i]);
        } else {
            assert(ls.push(l)[i] == l);
        }
    }
}

/// ASCII-alphanumeric strings are line-safe.
proof fn lemma_alnum_safe(s: Seq<char>)
    requires
        forall|i: int| 0 <= i < s.len() ==> crate::text::is_ascii_alnum(s[i]),
    ensures
        line_safe(s),
{
}

/// The account-type names used in summaries are line-safe and non-empty.
proof fn lemma_kind_safe(a: AccountType)
    ensures
        line_safe(kind_name(a)),
        kind_name(a).len() > 0,
{
    match a {
        AccountType::User => {
            assert(line_safe(kind_name(a)));
        },
        AccountType::PointOfSale => {
            assert(line_safe(kind_name(a)));
        },
        AccountType::Source => {
            assert(line_safe(kind_name(a)));
        },
    }
}

/// Shape facts about a quoted value token.
proof fn lemma_quoted_token(x: Seq<char>)
    ensures
        quoted(x).len() >= 2,
        quoted(x)[0] == '"',
        quoted(x).last() == '"',
        !is_ws_char(quoted(x)[0]),
        !is_ws_char(quoted(x).last()),
        line_safe(quoted(x)),
{
    lemma_esc_str_safe(x);
    lemma_safe_concat(seq!['"'], crate::text::esc_str(x));
    lemma_safe_concat(seq!['"'] + crate::text::esc_str(x), seq!['"']);
    assert(quoted(x).last() == '"');
}

/// Shape facts about an unsigned decimal token.
proof fn lemma_udec_token(n: nat)
    ensures
        dec_digits(n).len() > 0,
        !is_ws_char(dec_digits(n)[0]),
        !is_ws_char(dec_digits(n).last()),
        line_safe(dec_digits(n)),
        dec_digits(n)[0] != '-',
{
    lemma_dec_digits(n);
    lemma_digits_safe(dec_digits(n));
    assert(crate::text::is_ascii_digit_char(dec_digits(n)[0]));
    assert(crate::text::is_ascii_digit_char(dec_digits(n).last()));
}

/// Shape facts about a signed decimal token.
proof fn lemma_dec_token(n: int)
    ensures
        dec_int(n).len() > 0,
        !is_ws_char(dec_int(n)[0]),
        !is_ws_char(dec_int(n).last()),
        line_safe(dec_int(n)),
{
    if n < 0 {
        lemma_udec_token((-n) as nat);
        let d = dec_digits((-n) as nat);
        let w = seq!['-'] + d;
        assert(w[0] == '-');
        assert(w.last() == d.last());
        lemma_safe_concat(seq!['-'], d);
    } else {
        lemma_udec_token(n as nat);
    }
}

/// The payload keys are non-empty and alphanumeric.
proof fn lemma_key_shapes()
    ensures
        forall|i: int| 0 <= i < key_from().len() ==> crate::text::is_ascii_alnum(key_from()[i]),
        forall|i: int| 0 <= i < key_to().len() ==> crate::text::is_ascii_alnum(key_to()[i]),
        forall|i: int| 0 <= i < key_amount().len() ==> crate::text::is_ascii_alnum(key_amount()[i]),
        forall|i: int|
            0 <= i < key_description().len() ==> crate::text::is_ascii_alnum(key_description()[i]),
        forall|i: int| 0 <= i < key_class().len() ==> crate::text::is_ascii_alnum(key_class()[i]),
        forall|i: int| 0 <= i < key_ean().len() ==> crate::text::is_ascii_alnum(key_ean()[i]),
{
}

/// A written `key = value` line is a good message line when its parts are
/// line-safe.
proof fn lemma_good_kv(key: Seq<char>, val: Seq<char>)
    requires
        key.len() > 0,
        key[0] != '-',
        line_safe(key),
        line_safe(val),
    ensures
        good_line(kv_line(key, val)),
{
    lemma_safe_concat(key, seq![' ', '=', ' ']);
    lemma_safe_concat(key + seq![' ', '=', ' '], val);
    assert(kv_line(key, val)[0] == key[0]);
}

/// Every payload line is a good message line.
proof fn lemma_payload_good(t: TransactionV)
    requires
        account_wf(t.from),
        account_wf(t.to),
    ensures
        all_good(payload_lines(t)),
{
    lemma_key_shapes();
    lemma_quoted_token(spec_encode_account(t.from));
    lemma_quoted_token(spec_encode_account(t.to));
    lemma_dec_token(t.amount as int);
    lemma_alnum_safe(key_from());
    lemma_alnum_safe(key_to());
    lemma_alnum_safe(key_amount());
    lemma_alnum_safe(key_description());
    lemma_alnum_safe(key_class());
    lemma_alnum_safe(key_ean());
    let l1 = kv_line(key_from(), quoted(spec_encode_account(t.from)));
    let l2 = kv_line(key_to(), quoted(spec_encode_account(t.to)));
    let l3 = kv_line(key_amount(), dec_int(t.amount as int));
    lemma_good_kv(key_from(), quoted(spec_encode_account(t.from)));
    lemma_good_kv(key_to(), quoted(spec_encode_account(t.to)));
    lemma_good_kv(key_amount(), dec_int(t.amount as int));
    let base = seq![l1, l2, l3];
    assert(all_good(base)) by {
        assert forall|i: int| 0 <= i < base.len() implies good_line(base[i]) by {
            if i == 0 {
                assert(base[i] == l1);
            } else if i == 1 {
                assert(base[i] == l2);
            } else {
                assert(base[i] == l3);
            }
        }
    }
    let with_desc = match t.description {
        Some(d) => base.push(kv_line(key_description(), quoted(d))),
        None => base,
    };
    match t.description {
        Some(d) => {
            lemma_quoted_token(d);
            lemma_good_kv(key_description(), quoted(d));
            lemma_good_push(base, kv_line(key_description(), quoted(d)));
        },
        None => {},
    }
    assert(all_good(with_desc));
    match t.meta {
        None => {},
        Some(m) => {
            assert(good_line(meta_header()));
            lemma_good_push(with_desc, meta_header());
            let h = with_desc.push(meta_header());
            let wc = match m.class {
                Some(cl) => h.push(kv_line(key_class(), quoted(cl))),
                None => h,
            };
            match m.class {
                Some(cl) => {
                    lemma_quoted_token(cl);
                    lemma_good_kv(key_class(), quoted(cl));
                    lemma_good_push(h, kv_line(key_class(), quoted(cl)));
                },
                None => {},
            }
            assert(all_good(wc));
            match m.ean {
                Some(e) => {
                    lemma_udec_token(e as nat);
                    lemma_good_kv(key_ean(), dec_digits(e as nat));
                    lemma_good_push(wc, kv_line(key_ean(), dec_digits(e as nat)));
                },
                None => {},
            }
        },
    }
}

/// The summary line is line-safe, at least as long as the marker, and starts
/// with it.
proof fn lemma_summary_safe(t: TransactionV, c: RepoConfigV)
    requires
        account_wf(t.from),
        account_wf(t.to),
        line_safe(c.currency.code),
    ensures
        line_safe(spec_summary(t, c)),
        spec_summary(t, c).len() >= 13,
        spec_summary(t, c).take(13) == marker(),
{
    let s = spec_summary(t, c);
    assert(line_safe(marker()));
    lemma_alnum_safe(t.from.name);
    lemma_alnum_safe(t.to.name);
    if t.amount == 0 && t.to.account_type == AccountType::User {
        assert(line_safe(seq!['A', 'd', 'd', ' ', 'u', 's', 'e', 'r', ' ']));
        lemma_safe_concat(marker(), seq!['A', 'd', 'd', ' ', 'u', 's', 'e', 'r', ' ']);
        lemma_safe_concat(marker() + seq!['A', 'd', 'd', ' ', 'u', 's', 'e', 'r', ' '], t.to.name);
        assert(s.take(13) =~= marker());
    } else {
        lemma_kind_safe(t.from.account_type);
        lemma_kind_safe(t.to.account_type);
        let money = money_str(t.amount as int, c.currency.divisor as int);
        assert(line_safe(money)) by {
            let mag = (if t.amount < 0 {
                -(t.amount as int)
            } else {
                t.amount as int
            }) * 100 / (c.currency.divisor as int);
            lemma_udec_token((mag / 100) as nat);
            let frac = two_digits(mag % 100);
            assert(line_safe(frac)) by {
                assert(frac[0] == digit_char(mag % 100 / 10));
                assert(frac[1] == digit_char(mag % 100 % 10));
            }
            lemma_safe_concat(dec_digits((mag / 100) as nat), seq!['.']);
            lemma_safe_concat(dec_digits((mag / 100) as nat) + seq!['.'], frac);
            if t.amount < 0 {
                lemma_safe_concat(
                    seq!['-'],
                    dec_digits((mag / 100) as nat) + seq!['.'] + frac,
                );
            }
        }
        let p1 = marker() + kind_name(t.from.account_type);
        lemma_safe_concat(marker(), kind_name(t.from.account_type));
        let p2 = p1 + seq![' '];
        lemma_safe_concat(p1, seq![' ']);
        let p3 = p2 + t.from.name;
        lemma_safe_concat(p2, t.from.name);
        let p4 = p3 + seq![' ', 'p', 'a', 'y', 's', ' '];
        lemma_safe_concat(p3, seq![' ', 'p', 'a', 'y', 's', ' ']);
        let p5 = p4 + money;
        lemma_safe_concat(p4, money);
        let p6 = p5 + seq![' '];
        lemma_safe_concat(p5, seq![' ']);
        let p7 = p6 + c.currency.code;
        lemma_safe_concat(p6, c.currency.code);
        let p8 = p7 + seq![' ', 't', 'o', ' '];
        lemma_safe_concat(p7, seq![' ', 't', 'o', ' ']);
        let p9 = p8 + kind_name(t.to.account_type);
        lemma_safe_concat(p8, kind_name(t.to.account_type));
        let p10 = p9 + seq![' '];
        lemma_safe_concat(p9, seq![' ']);
        let p11 = p10 + t.to.name;
        lemma_safe_concat(p10, t.to.name);
        assert(s == p11);
        assert(s.take(13) =~= marker());
    }
}

/// Appending one line to the payload fold applies it to the folded state.
proof fn lemma_fold_push(ls: Seq<Seq<char>>, l: Seq<char>)
    ensures
        parse_payload_lines(ls.push(l)) == (match parse_payload_lines(ls) {
            Some(st) => apply_line(st, l),
            None => None::<PartialTx>,
        }),
{
    assert(ls.push(l).drop_last() =~= ls);
    assert(ls.push(l).last() == l);
}

/// Folding the payload lines of a transaction reconstructs the transaction.
#[verifier::rlimit(100)]
#[verifier::spinoff_prover]
proof fn lemma_payload_fold(t: TransactionV)
    requires
        account_wf(t.from),
        account_wf(t.to),
    ensures
        parse_payload_lines(payload_lines(t)) is Some,
        finish_partial(parse_payload_lines(payload_lines(t))->0) == Some(t),
{
    lemma_key_shapes();
    let enc_from = spec_encode_account(t.from);
    let enc_to = spec_encode_account(t.to);
    let l1 = kv_line(key_from(), quoted(enc_from));
    let l2 = kv_line(key_to(), quoted(enc_to));
    let l3 = kv_line(key_amount(), dec_int(t.amount as int));
    let base = seq![l1, l2, l3];

    lemma_quoted_token(enc_from);
    lemma_quoted_token(enc_to);
    lemma_dec_token(t.amount as int);
    lemma_classify_kv(key_from(), quoted(enc_from));
    lemma_classify_kv(key_to(), quoted(enc_to));
    lemma_classify_kv(key_amount(), dec_int(t.amount as int));
    lemma_parse_quoted(enc_from);
    lemma_parse_quoted(enc_to);
    lemma_account_encode_parse(t.from);
    lemma_account_encode_parse(t.to);
    lemma_dec_int(t.amount as int);

    let st0 = init_partial();
    assert(base.drop_last() =~= seq![l1, l2]);
    assert(seq![l1, l2].drop_last() =~= seq![l1]);
    assert(seq![l1].drop_last() =~= Seq::<Seq<char>>::empty());
    assert(parse_payload_lines(Seq::<Seq<char>>::empty()) == Some(st0));
    let st1 = PartialTx { from: Some(t.from), ..st0 };
    assert(seq![l1].last() == l1);
    assert(apply_line(st0, l1) == Some(st1));
    assert(parse_payload_lines(seq![l1]) == Some(st1));
    let st2 = PartialTx { to: Some(t.to), ..st1 };
    assert(seq![l1, l2].last() == l2);
    assert(key_to() != key_from());
    assert(apply_line(st1, l2) == Some(st2));
    assert(parse_payload_lines(seq![l1, l2]) == Some(st2));
    let st3 = PartialTx { amount: Some(t.amount), ..st2 };
    assert(base.last() == l3);
    assert(key_amount() != key_from());
    assert(key_amount() != key_to());
    assert(int_val(dec_int(t.amount as int)) as i32 == t.amount);
    assert(apply_line(st2, l3) == Some(st3));
    assert(parse_payload_lines(base) == Some(st3));

    let with_desc = match t.description {
        Some(d) => base.push(kv_line(key_description(), quoted(d))),
        None => base,
    };
    let st_d = match t.description {
        Some(d) => PartialTx { description: Some(d), ..st3 },
        None => st3,
    };
    match t.description {
        Some(d) => {
            lemma_quoted_token(d);
            lemma_classify_kv(key_description(), quoted(d));
            lemma_parse_quoted(d);
            lemma_fold_push(base, kv_line(key_description(), quoted(d)));
            assert(key_description() != key_from());
            assert(key_description() != key_to());
            assert(key_description() != key_amount());
            assert(apply_line(st3, kv_line(key_description(), quoted(d))) == Some(st_d));
        },
        None => {},
    }
    assert(parse_payload_lines(with_desc) == Some(st_d));

    match t.meta {
        None => {
            assert(payload_lines(t) == with_desc);
            let stf = parse_payload_lines(payload_lines(t))->0;
            assert(stf == st_d);
            assert(finish_partial(stf)->0 =~~= t);
            assert(finish_partial(stf) == Some(finish_partial(stf)->0));
        },
        Some(m) => {
            assert(meta_header()[0] == '[');
            assert(!is_ws_char(meta_header()[0]));
            assert(!is_ws_char(meta_header().last()));
            lemma_classify_header(meta_header());
            lemma_fold_push(with_desc, meta_header());
            let h = with_desc.push(meta_header());
            let st_h = PartialTx { meta_seen: true, section: Section::Meta, ..st_d };
            assert(apply_line(st_d, meta_header()) == Some(st_h));
            assert(parse_payload_lines(h) == Some(st_h));
            let wc = match m.class {
                Some(cl) => h.push(kv_line(key_class(), quoted(cl))),
                None => h,
            };
            let st_c = match m.class {
                Some(cl) => PartialTx { class: Some(cl), ..st_h },
                None => st_h,
            };
            match m.class {
                Some(cl) => {
                    lemma_quoted_token(cl);
                    lemma_classify_kv(key_class(), quoted(cl));
                    lemma_parse_quoted(cl);
                    lemma_fold_push(h, kv_line(key_class(), quoted(cl)));
                    assert(apply_line(st_h, kv_line(key_class(), quoted(cl))) == Some(st_c));
                },
                None => {},
            }
            assert(parse_payload_lines(wc) == Some(st_c));
            let st_e = match m.ean {
                Some(e) => PartialTx { ean: Some(e), ..st_c },
                None => st_c,
            };
            match m.ean {
                Some(e) => {
                    lemma_udec_token(e as nat);
                    lemma_dec_digits(e as nat);
                    lemma_classify_kv(key_ean(), dec_digits(e as nat));
                    lemma_fold_push(wc, kv_line(key_ean(), dec_digits(e as nat)));
                    assert(key_ean() != key_class());
                    assert(digits_val(dec_digits(e as nat)) as u64 == e);
                    assert(apply_line(st_c, kv_line(key_ean(), dec_digits(e as nat))) == Some(
                        st_e,
                    ));
                    assert(payload_lines(t) == wc.push(kv_line(key_ean(), dec_digits(e as nat))));
                },
                None => {
                    assert(payload_lines(t) == wc);
                },
            }
            assert(parse_payload_lines(payload_lines(t)) == Some(st_e));
            let stf = st_e;
            assert(finish_partial(stf)->0 =~~= t) by {
                assert(stf.meta_seen);
                assert(MetaV { class: m.class, ean: m.ean } =~= m);
            }
            assert(finish_partial(stf) == Some(finish_partial(stf)->0));
        },
    }
}

/// Round trip: decoding the commit message produced by encoding a
/// transaction yields the transaction back, and the message is recognized as
/// ledger data. The transaction's accounts must satisfy the model invariant,
/// and the configured currency code must not embed line breaks.
pub proof fn lemma_message_round_trip(t: TransactionV, c: RepoConfigV)
    requires
        account_wf(t.from),
        account_wf(t.to),
        line_safe(c.currency.code),
    ensures
        is_ledger_message(spec_message(t, c)),
        spec_extract(spec_message(t, c)) == Some(t),
{
    let summary = spec_summary(t, c);
    lemma_summary_safe(t, c);
    let pls = payload_lines(t);
    lemma_payload_good(t);
    let big = seq![summary, Seq::<char>::empty(), fence()] + pls + seq![fence()];
    let msg = spec_message(t, c);
    let n = big.len() as int;
    assert(n == pls.len() + 4);
    assert(big[n - 1] == fence());
    assert(big[0] == summary);
    assert(big[1] =~= Seq::<char>::empty());
    assert(big[2] == fence());
    assert(joinable_lines(big)) by {
        assert(big.last() == fence());
        assert forall|i: int, j: int|
            0 <= i < big.len() && 0 <= j < big[i].len() implies big[i][j] != '\n' by {
            if i >= 3 && i < n - 1 {
                assert(big[i] == pls[i - 3]);
                assert(good_line(pls[i - 3]));
            }
        }
        assert forall|i: int| 0 <= i < big.len() && big[i].len() > 0 implies big[i].last()
            != '\r' by {
            if i >= 3 && i < n - 1 {
                assert(big[i] == pls[i - 3]);
                assert(good_line(pls[i - 3]));
            }
        }
    }
    lemma_msg_lines_join(big);
    assert(msg_lines(msg) == big);

    // The message begins with the summary line, hence with the marker.
    assert(msg == join_nl(big));
    assert(big.drop_first().len() > 0);
    assert(msg == big[0] + seq!['\n'] + join_nl(big.drop_first()));
    assert(msg.take(13) =~= summary.take(13));
    assert(is_ledger_message(msg));

    // The payload sits between the first fence and the next.
    assert(summary != fence()) by {
        assert(summary.len() >= 13);
    }
    assert(Seq::<char>::empty() != fence());
    lemma_find_line_of(big, fence(), 2);
    let rest = big.skip(3);
    assert(rest =~= pls + seq![fence()]);
    assert forall|m: int| 0 <= m < pls.len() implies rest[m] != fence() by {
        assert(rest[m] == pls[m]);
        assert(good_line(pls[m]));
        assert(fence()[0] == '-');
    }
    assert(rest[pls.len() as int] == fence());
    lemma_find_line_of(rest, fence(), pls.len() as int);
    assert(payload_of(big) =~~= pls);

    lemma_payload_fold(t);
    assert(spec_extract(msg) == Some(t));
}

} // verus!
