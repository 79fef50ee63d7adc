use vstd::prelude::*;

use crate::account::Account;
use crate::account::AccountType;
use crate::account::AccountV;
use crate::account::spec_parse_account;
use crate::account::valid_account_name;
use crate::error::Error;
use crate::kv::LineKind;
use crate::kv::LineParts;
use crate::kv::classify_line;
use crate::kv::classify_parts;
use crate::text::chars_eq;
use crate::text::chars_string;
use crate::text::find_index;
use crate::text::lemma_find_index;
use crate::text::msg_lines;
use crate::text::msg_lines_exec;
use crate::text::parse_quoted;
use crate::text::parse_quoted_chars;
use crate::text::str_chars;
use crate::text::subrange_chars;
use crate::text::trim_bounds;
use crate::text::trim_ws;
use crate::text::views_of;
use crate::transaction::Transaction;
use crate::transaction::TransactionV;

verus! {

// --- Interactive commands ---

/// The commands of the interactive prompt.
#[derive(Debug, Clone, Copy, PartialEq, Eq, Structural)]
pub enum CliCommand {
    AddUser,
    Help,
}

pub open spec fn cmd_adduser() -> Seq<char> {
    seq!['a', 'd', 'd', 'u', 's', 'e', 'r']
}

pub open spec fn cmd_help() -> Seq<char> {
    seq!['h', 'e', 'l', 'p']
}

/// ASCII lowercasing of one character.
pub open spec fn lower_char(c: char) -> char {
    if 65 <= c as u32 && c as u32 <= 90 {
        ((c as u32 + 32) as u8) as char
    } else {
        c
    }
}

/// ASCII lowercasing of a string.
pub open spec fn lower_seq(s: Seq<char>) -> Seq<char> {
    s.map_values(|c: char| lower_char(c))
}

fn lower_char_exec(c: char) -> (r: char)
    ensures
        r == lower_char(c),
{
    let u = c as u32;
    if 65 <= u && u <= 90 {
        ((u + 32) as u8) as char
    } else {
        c
    }
}

/// ASCII lowercasing of a character vector.
fn lower_exec(v: &Vec<char>) -> (r: Vec<char>)
    ensures
        r@ == lower_seq(v@),
{
    let mut r: Vec<char> = Vec::new();
    let mut i: usize = 0;
    while i < v.len()
        invariant
            i <= v@.len(),
            r@.len() == i,
            forall|j: int| 0 <= j < i ==> r@[j] == lower_char(v@[j]),
        decreases v@.len() - i,
    {
        r.push(lower_char_exec(v[i]));
        i = i + 1;
    }
    proof {
        assert(r@ =~= lower_seq(v@));
    }
    r
}

/// The command named by an input, compared case-insensitively (ASCII).
pub open spec fn spec_command_of(s: Seq<char>) -> Option<CliCommand> {
    if lower_seq(s) == cmd_adduser() {
        Some(CliCommand::AddUser)
    } else if lower_seq(s) == cmd_help() {
        Some(CliCommand::Help)
    } else {
        None
    }
}

proof fn lemma_cli_literals()
    ensures
        "adduser"@ == cmd_adduser(),
        "help"@ == cmd_help(),
        "cash"@ == seq!['c', 'a', 's', 'h'],
{
    reveal_strlit("adduser");
    reveal_strlit("help");
    reveal_strlit("cash");
    assert("adduser"@ =~= cmd_adduser());
    assert("help"@ =~= cmd_help());
    assert("cash"@ =~= seq!['c', 'a', 's', 'h']);
}

impl CliCommand {
    /// The word that invokes this command.
    pub fn command(&self) -> (r: &'static str)
        ensures
            r@ == match self {
                CliCommand::AddUser => cmd_adduser(),
                CliCommand::Help => cmd_help(),
            },
    {
        proof {
            lemma_cli_literals();
        }
        match self {
            CliCommand::AddUser => "adduser",
            CliCommand::Help => "help",
        }
    }

    /// A short description for the help listing.
    pub fn description(&self) -> (r: &'static str)
        ensures
            r@ == match self {
                CliCommand::AddUser => "Add a new user"@,
                CliCommand::Help => "Show this help"@,
            },
    {
        match self {
            CliCommand::AddUser => "Add a new user",
            CliCommand::Help => "Show this help",
        }
    }

    /// The command named by the input, if any, compared case-insensitively.
    pub fn from_input(value: &str) -> (r: Option<CliCommand>)
        ensures
            r == spec_command_of(value@),
    {
        proof {
            lemma_cli_literals();
        }
        let v = str_chars(value);
        let low = lower_exec(&v);
        if chars_eq(&low, &str_chars("adduser")) {
            Some(CliCommand::AddUser)
        } else if chars_eq(&low, &str_chars("help")) {
            Some(CliCommand::Help)
        } else {
            None
        }
    }
}

// --- Autocompletion over the command words ---

/// Whether `n` occurs in `h` as a contiguous substring.
pub open spec fn contains_sub(h: Seq<char>, n: Seq<char>) -> bool {
    exists|i: int| 0 <= i <= h.len() - n.len() && #[trigger] h.subrange(i, i + n.len()) == n
}

/// Runtime substring search.
#[verifier::loop_isolation(false)]
fn contains_sub_exec(h: &Vec<char>, n: &Vec<char>) -> (r: bool)
    ensures
        r == contains_sub(h@, n@),
{
    if n.len() == 0 {
        proof {
            assert(h@.subrange(0, 0 + n@.len() as int) =~= n@);
            assert(contains_sub(h@, n@));
        }
        return true;
    }
    if n.len() > h.len() {
        return false;
    }
    let bound: usize = h.len() - n.len();
    let mut i: usize = 0;
    while i <= bound
        invariant
            n@.len() <= h@.len(),
            bound == h@.len() - n@.len(),
            i <= bound + 1,
            forall|k: int| 0 <= k < i ==> #[trigger] h@.subrange(k, k + n@.len()) != n@,
        decreases bound + 1 - i,
    {
        let w = subrange_chars(h, i, i + n.len());
        if chars_eq(&w, n) {
            proof {
                assert(h@.subrange(i as int, i as int + n@.len()) == n@);
            }
            return true;
        }
        i = i + 1;
    }
    proof {
        if contains_sub(h@, n@) {
            let k = choose|k: int|
                0 <= k <= h@.len() - n@.len() && #[trigger] h@.subrange(k, k + n@.len()) == n@;
            assert(h@.subrange(k, k + n@.len()) != n@);
        }
    }
    false
}

/// The views of a vector of static strings.
pub open spec fn strs_view(s: Seq<&'static str>) -> Seq<Seq<char>> {
    s.map_values(|x: &'static str| x@)
}

/// The views of a vector of strings.
pub open spec fn strings_view(s: Seq<String>) -> Seq<Seq<char>> {
    s.map_values(|x: String| x@)
}

/// The commands whose (lowercased) word contains the (lowercased) input, in
/// order.
pub open spec fn matching(cmds: Seq<Seq<char>>, input: Seq<char>) -> Seq<Seq<char>>
    decreases cmds.len(),
{
    if cmds.len() == 0 {
        Seq::empty()
    } else {
        let rest = matching(cmds.drop_last(), input);
        if contains_sub(lower_seq(cmds.last()), lower_seq(input)) {
            rest.push(cmds.last())
        } else {
            rest
        }
    }
}

/// The suggestions for an input: nothing for an empty input, otherwise every
/// command word containing it (case-insensitively).
pub open spec fn suggestions_spec(cmds: Seq<Seq<char>>, input: Seq<char>) -> Seq<Seq<char>> {
    if input.len() == 0 {
        Seq::empty()
    } else {
        matching(cmds, input)
    }
}

/// Suggests command words that contain the current input.
#[derive(Clone)]
pub struct CommandSuggester {
    commands: Vec<&'static str>,
}

impl View for CommandSuggester {
    type V = Seq<Seq<char>>;

    closed spec fn view(&self) -> Seq<Seq<char>> {
        strs_view(self.commands@)
    }
}

impl CommandSuggester {
    /// A suggester over the words of the given commands.
    pub fn new(commands: &[CliCommand]) -> (r: CommandSuggester)
        ensures
            r@.len() == commands@.len(),
            forall|i: int|
                0 <= i < commands@.len() ==> r@[i] == match commands@[i] {
                    CliCommand::AddUser => cmd_adduser(),
                    CliCommand::Help => cmd_help(),
                },
    {
        let mut words: Vec<&'static str> = Vec::new();
        let mut i: usize = 0;
        while i < commands.len()
            invariant
                i <= commands@.len(),
                words@.len() == i,
                forall|j: int|
                    0 <= j < i ==> words@[j]@ == match commands@[j] {
                        CliCommand::AddUser => cmd_adduser(),
                        CliCommand::Help => cmd_help(),
                    },
            decreases commands@.len() - i,
        {
            let c = commands[i];
            words.push(c.command());
            i = i + 1;
        }
        let r = CommandSuggester { commands: words };
        proof {
            assert(forall|j: int| 0 <= j < r@.len() ==> r@[j] == words@[j]@);
        }
        r
    }

    /// The suggestions for the current input: every command word that
    /// contains it, compared case-insensitively; none for an empty input.
    pub fn get_suggestions(&self, input: &str) -> (r: Vec<String>)
        ensures
            strings_view(r@) == suggestions_spec(self@, input@),
    {
        let mut out: Vec<String> = Vec::new();
        let iv = str_chars(input);
        if iv.len() == 0 {
            proof {
                assert(strings_view(out@) =~= suggestions_spec(self@, input@));
            }
            return out;
        }
        let low_input = lower_exec(&iv);
        let mut i: usize = 0;
        while i < self.commands.len()
            invariant
                i <= self.commands@.len(),
                low_input@ == lower_seq(input@),
                strings_view(out@) == matching(strs_view(self.commands@).take(i as int), input@),
            decreases self.commands@.len() - i,
        {
            let ghost cmds = strs_view(self.commands@);
            proof {
                assert(cmds[i as int] == self.commands@[i as int]@);
                assert(cmds.take(i as int + 1).drop_last() =~= cmds.take(i as int));
                assert(cmds.take(i as int + 1).last() == cmds[i as int]);
            }
            let word = self.commands[i];
            let wv = str_chars(word);
            let low_word = lower_exec(&wv);
            if contains_sub_exec(&low_word, &low_input) {
                out.push(String::from_str(word));
                proof {
                    assert(strings_view(out@) =~~= matching(cmds.take(i as int + 1), input@));
                }
            } else {
                proof {
                    assert(strings_view(out@) =~~= matching(cmds.take(i as int + 1), input@));
                }
            }
            i = i + 1;
        }
        proof {
            let cmds = strs_view(self.commands@);
            assert(cmds.take(cmds.len() as int) =~= cmds);
        }
        out
    }
}

// --- Username validation for the prompts ---

/// The outcome of validating a prompt input.
#[derive(Debug)]
pub enum Validation {
    /// The input is acceptable.
    Valid,
    /// The input is rejected, with a message for the user.
    Invalid(String),
}

/// Whether one of the names equals `x`.
pub open spec fn has_name(names: Seq<Seq<char>>, x: Seq<char>) -> bool {
    exists|i: int| 0 <= i < names.len() && names[i] == x
}

/// Runtime search for a name.
fn has_name_exec(names: &Vec<String>, x: &Vec<char>) -> (r: bool)
    ensures
        r == has_name(strings_view(names@), x@),
{
    let xs = chars_string(x);
    let mut i: usize = 0;
    while i < names.len()
        invariant
            i <= names@.len(),
            xs@ == x@,
            forall|j: int| 0 <= j < i ==> names@[j]@ != x@,
        decreases names@.len() - i,
    {
        if names[i] == xs {
            proof {
                assert(strings_view(names@)[i as int] == x@);
                assert(has_name(strings_view(names@), x@));
            }
            return true;
        }
        i = i + 1;
    }
    proof {
        if has_name(strings_view(names@), x@) {
            let w = choose|j: int|
                0 <= j < strings_view(names@).len() && strings_view(names@)[j] == x@;
            assert(strings_view(names@)[w] == names@[w]@);
            assert(names@[w]@ != x@);
        }
    }
    false
}

/// Accepts exactly the known usernames.
#[derive(Debug, Clone)]
pub struct UsernameValidator {
    usernames: Vec<String>,
}

impl View for UsernameValidator {
    type V = Seq<Seq<char>>;

    closed spec fn view(&self) -> Seq<Seq<char>> {
        strings_view(self.usernames@)
    }
}

impl UsernameValidator {
    /// A validator over the given usernames.
    pub fn new(usernames: Vec<String>) -> (r: UsernameValidator)
        ensures
            r@ == strings_view(usernames@),
    {
        UsernameValidator { usernames }
    }

    /// Valid exactly when the input is a known username.
    pub fn validate(&self, input: &str) -> (r: Validation)
        ensures
            r is Valid <==> has_name(self@, input@),
            r is Invalid ==> r->Invalid_0@ == "Not a known username: "@ + input@,
    {
        let iv = str_chars(input);
        if has_name_exec(&self.usernames, &iv) {
            Validation::Valid
        } else {
            Validation::Invalid(String::from_str("Not a known username: ").concat(input))
        }
    }
}

/// Accepts a new username: non-empty after trimming, without spaces or
/// colons, and not already taken.
#[derive(Debug, Clone)]
pub struct NewUsernameValidator {
    usernames: Vec<String>,
}

impl View for NewUsernameValidator {
    type V = Seq<Seq<char>>;

    closed spec fn view(&self) -> Seq<Seq<char>> {
        strings_view(self.usernames@)
    }
}

impl NewUsernameValidator {
    /// A validator over the usernames already taken.
    pub fn new(usernames: Vec<String>) -> (r: NewUsernameValidator)
        ensures
            r@ == strings_view(usernames@),
    {
        NewUsernameValidator { usernames }
    }

    /// Valid exactly when the trimmed input is non-empty, has no space and
    /// no colon, and is not already taken; rejections name the first rule
    /// violated, in that order.
    pub fn validate(&self, input: &str) -> (r: Validation)
        ensures
            ({
                let t = trim_ws(input@);
                &&& (r is Valid <==> t.len() > 0 && find_index(t, ' ') == -1 && find_index(t, ':')
                    == -1 && !has_name(self@, t))
                &&& (t.len() == 0 ==> r->Invalid_0@ == "Username may not be empty"@)
                &&& (t.len() > 0 && find_index(t, ' ') >= 0 ==> r->Invalid_0@
                    == "Username may not contain a space"@)
                &&& (t.len() > 0 && find_index(t, ' ') == -1 && find_index(t, ':') >= 0
                    ==> r->Invalid_0@ == "Username may not contain a colon"@)
                &&& (t.len() > 0 && find_index(t, ' ') == -1 && find_index(t, ':') == -1
                    && has_name(self@, t) ==> r->Invalid_0@ == "Username already exists: "@ + t)
            }),
    {
        let iv = str_chars(input);
        let (a, b) = trim_bounds(&iv, 0, iv.len());
        proof {
            assert(iv@.subrange(0, iv@.len() as int) =~= input@);
        }
        let t = subrange_chars(&iv, a, b);
        if t.len() == 0 {
            return Validation::Invalid(String::from_str("Username may not be empty"));
        }
        proof {
            lemma_find_index(t@, ' ');
            lemma_find_index(t@, ':');
        }
        match crate::text::find_char(&t, ' ') {
            Some(_) => {
                return Validation::Invalid(
                    String::from_str("Username may not contain a space"),
                );
            },
            None => {},
        }
        match crate::text::find_char(&t, ':') {
            Some(_) => {
                return Validation::Invalid(
                    String::from_str("Username may not contain a colon"),
                );
            },
            None => {},
        }
        if has_name_exec(&self.usernames, &t) {
            let ts = chars_string(&t);
            return Validation::Invalid(
                String::from_str("Username already exists: ").concat(ts.as_str()),
            );
        }
        Validation::Valid
    }
}

// --- Building transactions for the interactive flows ---

/// The transaction that registers a new user: zero value from the cash
/// source to the new user's account, with a descriptive note.
pub fn add_user_transaction(new_name: &str) -> (r: Result<Transaction, Error>)
    ensures
        match r {
            Ok(t) => valid_account_name(new_name@) && t@ == (TransactionV {
                from: AccountV { account_type: AccountType::Source, name: seq!['c', 'a', 's', 'h'] },
                to: AccountV { account_type: AccountType::User, name: new_name@ },
                amount: 0,
                description: Some("Create user "@ + new_name@),
                meta: None,
            }),
            Err(e) => !valid_account_name(new_name@) && e is ValidationError,
        },
{
    proof {
        lemma_cli_literals();
        reveal_strlit("cash");
    }
    let to = match Account::user(new_name) {
        Ok(a) => a,
        Err(e) => {
            return Err(e);
        },
    };
    let from = match Account::source("cash") {
        Ok(a) => a,
        Err(e) => {
            proof {
                assert(valid_account_name("cash"@));
                assert(false);
            }
            return Err(e);
        },
    };
    let description = String::from_str("Create user ").concat(new_name);
    Ok(Transaction { from, to, amount: 0, description: Some(description), meta: None })
}

/// The transaction for a payment from a user to this point of sale.
pub fn payment_transaction(name: &str, to: &Account, amount: i32) -> (r: Result<
    Transaction,
    Error,
>)
    ensures
        match r {
            Ok(t) => valid_account_name(name@) && t@ == (TransactionV {
                from: AccountV { account_type: AccountType::User, name: name@ },
                to: to@,
                amount,
                description: None,
                meta: None,
            }),
            Err(e) => !valid_account_name(name@) && e is ValidationError,
        },
{
    let from = match Account::user(name) {
        Ok(a) => a,
        Err(e) => {
            return Err(e);
        },
    };
    Ok(Transaction { from, to: to.clone(), amount, description: None, meta: None })
}

// --- The point-of-sale configuration file ---

/// Configuration of one point-of-sale installation: where the ledger
/// repository lives, which account this till is, and the identity to use for
/// commits.
#[derive(Debug, PartialEq, Eq)]
pub struct Config {
    /// Path to the ledger repository to use.
    pub repo_path: String,
    /// Account corresponding to this point of sale.
    pub account: Account,
    /// Name to use for commits.
    pub git_name: String,
    /// E-mail to use for commits.
    pub git_email: String,
}

/// The mathematical value of a [`Config`].
#[verifier::ext_equal]
pub ghost struct ConfigV {
    pub repo_path: Seq<char>,
    pub account: AccountV,
    pub git_name: Seq<char>,
    pub git_email: Seq<char>,
}

impl View for Config {
    type V = ConfigV;

    open spec fn view(&self) -> ConfigV {
        ConfigV {
            repo_path: self.repo_path@,
            account: self.account@,
            git_name: self.git_name@,
            git_email: self.git_email@,
        }
    }
}

pub open spec fn key_repo_path() -> Seq<char> {
    seq!['r', 'e', 'p', 'o', '_', 'p', 'a', 't', 'h']
}

pub open spec fn key_account() -> Seq<char> {
    seq!['a', 'c', 'c', 'o', 'u', 'n', 't']
}

pub open spec fn key_git_name() -> Seq<char> {
    seq!['g', 'i', 't', '_', 'n', 'a', 'm', 'e']
}

pub open spec fn key_git_email() -> Seq<char> {
    seq!['g', 'i', 't', '_', 'e', 'm', 'a', 'i', 'l']
}

/// The state of the configuration fold: the four raw string values.
#[verifier::ext_equal]
pub ghost struct PartialCliCfg {
    pub repo_path: Option<Seq<char>>,
    pub account: Option<Seq<char>>,
    pub git_name: Option<Seq<char>>,
    pub git_email: Option<Seq<char>>,
    pub in_top: bool,
}

pub open spec fn init_cli_cfg() -> PartialCliCfg {
    PartialCliCfg { repo_path: None, account: None, git_name: None, git_email: None, in_top: true }
}

/// Folds one configuration line: the four keys at the top level; anything
/// under a table header, and unrecognized keys, are ignored.
pub open spec fn apply_cli_cfg_line(st: PartialCliCfg, l: Seq<char>) -> Option<PartialCliCfg> {
    match classify_line(l) {
        LineKind::Blank => Some(st),
        LineKind::Bad => None,
        LineKind::Header(h) => Some(PartialCliCfg { in_top: false, ..st }),
        LineKind::Pair(k, w) => if !st.in_top {
            Some(st)
        } else if k == key_repo_path() {
            if st.repo_path is Some {
                None
            } else {
                match parse_quoted(w) {
                    Some(q) => Some(PartialCliCfg { repo_path: Some(q), ..st }),
                    None => None,
                }
            }
        } else if k == key_account() {
            if st.account is Some {
                None
            } else {
                match parse_quoted(w) {
                    Some(q) => Some(PartialCliCfg { account: Some(q), ..st }),
                    None => None,
                }
            }
        } else if k == key_git_name() {
            if st.git_name is Some {
                None
            } else {
                match parse_quoted(w) {
                    Some(q) => Some(PartialCliCfg { git_name: Some(q), ..st }),
                    None => None,
                }
            }
        } else if k == key_git_email() {
            if st.git_email is Some {
                None
            } else {
                match parse_quoted(w) {
                    Some(q) => Some(PartialCliCfg { git_email: Some(q), ..st }),
                    None => None,
                }
            }
        } else {
            Some(st)
        },
    }
}

pub open spec fn cli_cfg_fold(ls: Seq<Seq<char>>) -> Option<PartialCliCfg>
    decreases ls.len(),
{
    if ls.len() == 0 {
        Some(init_cli_cfg())
    } else {
        match cli_cfg_fold(ls.drop_last()) {
            Some(st) => apply_cli_cfg_line(st, ls.last()),
            None => None,
        }
    }
}

proof fn lemma_cli_cfg_prefix_none(ls: Seq<Seq<char>>, k: int)
    requires
        0 <= k <= ls.len(),
        cli_cfg_fold(ls.take(k)) is None,
    ensures
        cli_cfg_fold(ls) is None,
    decreases ls.len() - k,
{
    if k < ls.len() {
        assert(ls.take(k + 1).drop_last() =~= ls.take(k));
        lemma_cli_cfg_prefix_none(ls, k + 1);
    } else {
        assert(ls.take(k) =~= ls);
    }
}

/// The completed configuration: all four keys present, and the account
/// string denoting a valid account.
pub open spec fn finish_cli_cfg(st: PartialCliCfg) -> Option<ConfigV> {
    if st.repo_path is Some && st.account is Some && st.git_name is Some && st.git_email is Some {
        match spec_parse_account(st.account->0) {
            Some(a) => Some(
                ConfigV {
                    repo_path: st.repo_path->0,
                    account: a,
                    git_name: st.git_name->0,
                    git_email: st.git_email->0,
                },
            ),
            None => None,
        }
    } else {
        None
    }
}

/// The configuration denoted by the text of the configuration file, before
/// the account-type check.
pub open spec fn spec_parse_cli_config(s: Seq<char>) -> Option<ConfigV> {
    match cli_cfg_fold(msg_lines(s)) {
        Some(st) => finish_cli_cfg(st),
        None => None,
    }
}

/// The runtime state of the configuration fold.
struct CliCfgState {
    repo_path: Option<String>,
    account: Option<String>,
    git_name: Option<String>,
    git_email: Option<String>,
    in_top: bool,
}

impl View for CliCfgState {
    type V = PartialCliCfg;

    closed spec fn view(&self) -> PartialCliCfg {
        PartialCliCfg {
            repo_path: match self.repo_path {
                Some(x) => Some(x@),
                None => None,
            },
            account: match self.account {
                Some(x) => Some(x@),
                None => None,
            },
            git_name: match self.git_name {
                Some(x) => Some(x@),
                None => None,
            },
            git_email: match self.git_email {
                Some(x) => Some(x@),
                None => None,
            },
            in_top: self.in_top,
        }
    }
}

fn cli_cfg_error() -> (r: Error)
    ensures
        r is RepoError,
{
    Error::RepoError(String::from_str("Could not parse config"))
}

proof fn lemma_cli_cfg_literals()
    ensures
        "repo_path"@ == key_repo_path(),
        "account"@ == key_account(),
        "git_name"@ == key_git_name(),
        "git_email"@ == key_git_email(),
{
    reveal_strlit("repo_path");
    reveal_strlit("account");
    reveal_strlit("git_name");
    reveal_strlit("git_email");
    assert("repo_path"@ =~= key_repo_path());
    assert("account"@ =~= key_account());
    assert("git_name"@ =~= key_git_name());
    assert("git_email"@ =~= key_git_email());
}

/// Folds one configuration line into the runtime state.
fn apply_cli_cfg_parts(st: &mut CliCfgState, line: &Vec<char>) -> (r: Result<(), Error>)
    ensures
        match r {
            Ok(()) => apply_cli_cfg_line(old(st)@, line@) == Some(final(st)@),
            Err(e) => apply_cli_cfg_line(old(st)@, line@) is None && e is RepoError,
        },
{
    proof {
        lemma_cli_cfg_literals();
    }
    match classify_parts(line) {
        LineParts::Blank => Ok(()),
        LineParts::Bad => Err(cli_cfg_error()),
        LineParts::Header(_h) => {
            st.in_top = false;
            Ok(())
        },
        LineParts::Pair(k, w) => {
            if !st.in_top {
                return Ok(());
            }
            proof {
                assert(w@.subrange(0, w@.len() as int) =~= w@);
            }
            if chars_eq(&k, &str_chars("repo_path")) {
                if st.repo_path.is_some() {
                    return Err(cli_cfg_error());
                }
                match parse_quoted_chars(&w, 0, w.len()) {
                    Some(q) => {
                        st.repo_path = Some(chars_string(&q));
                        Ok(())
                    },
                    None => Err(cli_cfg_error()),
                }
            } else if chars_eq(&k, &str_chars("account")) {
                if st.account.is_some() {
                    return Err(cli_cfg_error());
                }
                match parse_quoted_chars(&w, 0, w.len()) {
                    Some(q) => {
                        st.account = Some(chars_string(&q));
                        Ok(())
                    },
                    None => Err(cli_cfg_error()),
                }
            } else if chars_eq(&k, &str_chars("git_name")) {
                if st.git_name.is_some() {
                    return Err(cli_cfg_error());
                }
                match parse_quoted_chars(&w, 0, w.len()) {
                    Some(q) => {
                        st.git_name = Some(chars_string(&q));
                        Ok(())
                    },
                    None => Err(cli_cfg_error()),
                }
            } else if chars_eq(&k, &str_chars("git_email")) {
                if st.git_email.is_some() {
                    return Err(cli_cfg_error());
                }
                match parse_quoted_chars(&w, 0, w.len()) {
                    Some(q) => {
                        st.git_email = Some(chars_string(&q));
                        Ok(())
                    },
                    None => Err(cli_cfg_error()),
                }
            } else {
                Ok(())
            }
        },
    }
}

impl Config {
    /// Parses the text of the configuration file and checks that the
    /// configured account is a point of sale. Unparsable contents are a
    /// repository error; a well-formed configuration whose account is not a
    /// point of sale is a validation error.
    #[verifier::loop_isolation(false)]
    pub fn from_toml_str(config_string: &str) -> (r: Result<Config, Error>)
        ensures
            match r {
                Ok(c) => spec_parse_cli_config(config_string@) == Some(c@) && c@.account.account_type
                    == AccountType::PointOfSale,
                Err(e) => match spec_parse_cli_config(config_string@) {
                    None => e is RepoError,
                    Some(c0) => c0.account.account_type != AccountType::PointOfSale
                        && e is ValidationError,
                },
            },
    {
        let v = str_chars(config_string);
        let lines = msg_lines_exec(&v);
        let ghost ls = msg_lines(config_string@);
        let mut st = CliCfgState {
            repo_path: None,
            account: None,
            git_name: None,
            git_email: None,
            in_top: true,
        };
        proof {
            assert(st@ =~= init_cli_cfg());
            assert(ls.take(0) =~= Seq::<Seq<char>>::empty());
        }
        let mut i: usize = 0;
        while i < lines.len()
            invariant
                i <= lines@.len(),
                ls == views_of(lines@),
                cli_cfg_fold(ls.take(i as int)) == Some(st@),
            decreases lines@.len() - i,
        {
            proof {
                assert(ls[i as int] == lines@[i as int]@);
                assert(ls.take(i as int + 1).drop_last() =~= ls.take(i as int));
                assert(ls.take(i as int + 1).last() == ls[i as int]);
            }
            match apply_cli_cfg_parts(&mut st, &lines[i]) {
                Ok(()) => {},
                Err(e) => {
                    proof {
                        lemma_cli_cfg_prefix_none(ls, i as int + 1);
                    }
                    return Err(e);
                },
            }
            i = i + 1;
        }
        proof {
            assert(ls.take(ls.len() as int) =~= ls);
        }
        let ghost stv = st@;
        let CliCfgState { repo_path, account, git_name, git_email, in_top: _t } = st;
        match (repo_path, account, git_name, git_email) {
            (Some(rp), Some(acct), Some(gn), Some(ge)) => {
                match Account::parse(acct.as_str()) {
                    Ok(a) => {
                        match a.account_type {
                            AccountType::PointOfSale => {
                                let cfg = Config {
                                    repo_path: rp,
                                    account: a,
                                    git_name: gn,
                                    git_email: ge,
                                };
                                proof {
                                    assert(finish_cli_cfg(stv) is Some);
                                    assert(spec_parse_cli_config(config_string@)->0 =~~= cfg@);
                                }
                                Ok(cfg)
                            },
                            _ => {
                                proof {
                                    assert(finish_cli_cfg(stv) is Some);
                                    assert(spec_parse_cli_config(config_string@)->0.account
                                        =~= a@);
                                }
                                Err(
                                    Error::ValidationError(
                                        String::from_str(
                                            "Account type must be PointOfSale",
                                        ),
                                    ),
                                )
                            },
                        }
                    },
                    Err(_) => {
                        proof {
                            assert(finish_cli_cfg(stv) is None);
                        }
                        Err(cli_cfg_error())
                    },
                }
            },
            _ => {
                proof {
                    assert(finish_cli_cfg(stv) is None);
                }
                Err(cli_cfg_error())
            },
        }
    }
}

} // verus!
