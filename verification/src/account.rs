use vstd::prelude::*;

use crate::error::Error;
use crate::text::check_ascii_alnum;
use crate::text::chars_eq;
use crate::text::chars_string;
use crate::text::find_char;
use crate::text::find_index;
use crate::text::is_ascii_alnum;
use crate::text::lemma_find_index;
use crate::text::lemma_find_index_of;
use crate::text::str_chars;
use crate::text::subrange_chars;

verus! {

/// The role of an account in the ledger.
#[derive(Debug, PartialEq, Eq, Structural, Hash, Clone, Copy)]
pub enum AccountType {
    /// A user can both receive and send money.
    User,
    /// A point of sale can only receive money.
    PointOfSale,
    /// A cash source is used to deposit money into the system.
    Source,
}

/// An account, identified by its type and its name.
///
/// A validly constructed account has a non-empty, ASCII-alphanumeric name;
/// the constructors reject anything else.
#[derive(Debug, Eq, Hash)]
pub struct Account {
    pub account_type: AccountType,
    pub name: String,
}

/// The mathematical value of an [`Account`].
#[verifier::ext_equal]
pub ghost struct AccountV {
    pub account_type: AccountType,
    pub name: Seq<char>,
}

impl View for Account {
    type V = AccountV;

    open spec fn view(&self) -> AccountV {
        AccountV { account_type: self.account_type, name: self.name@ }
    }
}

impl PartialEq for Account {
    fn eq(&self, other: &Account) -> bool {
        self.account_type == other.account_type && self.name == other.name
    }
}

impl vstd::std_specs::cmp::PartialEqSpecImpl for Account {
    open spec fn obeys_eq_spec() -> bool {
        true
    }

    open spec fn eq_spec(&self, other: &Account) -> bool {
        self@ == other@
    }
}

impl Clone for Account {
    fn clone(&self) -> (r: Self)
        ensures
            r == *self,
    {
        Account { account_type: self.account_type, name: self.name.clone() }
    }
}

/// Whether `s` is acceptable as an account name: non-empty and ASCII
/// alphanumeric throughout.
pub open spec fn valid_account_name(s: Seq<char>) -> bool {
    s.len() > 0 && forall|i: int| 0 <= i < s.len() ==> is_ascii_alnum(s[i])
}

/// Whether an account value satisfies the model invariant.
pub open spec fn account_wf(a: AccountV) -> bool {
    valid_account_name(a.name)
}

/// The type tag used in the canonical string encoding.
pub open spec fn tag_seq(t: AccountType) -> Seq<char> {
    match t {
        AccountType::User => seq!['u', 's', 'e', 'r'],
        AccountType::PointOfSale => seq!['p', 'o', 's'],
        AccountType::Source => seq!['s', 'o', 'u', 'r', 'c', 'e'],
    }
}

/// The account type denoted by a type tag, if any.
pub open spec fn tag_type(s: Seq<char>) -> Option<AccountType> {
    if s == tag_seq(AccountType::User) {
        Some(AccountType::User)
    } else if s == tag_seq(AccountType::PointOfSale) {
        Some(AccountType::PointOfSale)
    } else if s == tag_seq(AccountType::Source) {
        Some(AccountType::Source)
    } else {
        None
    }
}

/// The canonical string encoding `"<type-tag>:<name>"` of an account.
pub open spec fn spec_encode_account(a: AccountV) -> Seq<char> {
    tag_seq(a.account_type) + seq![':'] + a.name
}

/// The account denoted by a string: the text before the first colon must be a
/// known type tag, and everything after it a valid account name.
pub open spec fn spec_parse_account(s: Seq<char>) -> Option<AccountV> {
    let i = find_index(s, ':');
    if i < 0 {
        None
    } else {
        let tag = s.take(i);
        let name = s.skip(i + 1);
        match tag_type(tag) {
            Some(t) => if valid_account_name(name) {
                Some(AccountV { account_type: t, name })
            } else {
                None
            },
            None => None,
        }
    }
}

/// Whether a string has the right overall shape for an account (a colon, and
/// a known type tag before it), regardless of the name's validity. Parse
/// failures on such strings are validation errors; the rest are parse errors.
pub open spec fn account_parse_shape_ok(s: Seq<char>) -> bool {
    find_index(s, ':') >= 0 && tag_type(s.take(find_index(s, ':'))) is Some
}

/// The views of the literal tags equal their sequence spellings.
proof fn lemma_tag_literals()
    ensures
        "user"@ == tag_seq(AccountType::User),
        "pos"@ == tag_seq(AccountType::PointOfSale),
        "source"@ == tag_seq(AccountType::Source),
{
    reveal_strlit("user");
    reveal_strlit("pos");
    reveal_strlit("source");
    assert("user"@ =~= tag_seq(AccountType::User));
    assert("pos"@ =~= tag_seq(AccountType::PointOfSale));
    assert("source"@ =~= tag_seq(AccountType::Source));
}

/// Parsing an account string and encoding the result gives the string back:
/// the codec loses nothing on any syntactically valid input.
pub proof fn lemma_account_parse_encode(s: Seq<char>, a: AccountV)
    requires
        spec_parse_account(s) == Some(a),
    ensures
        spec_encode_account(a) == s,
{
    let i = find_index(s, ':');
    lemma_find_index(s, ':');
    assert(spec_encode_account(a) =~= s);
}

/// Encoding a valid account and parsing the result gives the account back.
pub proof fn lemma_account_encode_parse(a: AccountV)
    requires
        account_wf(a),
    ensures
        spec_parse_account(spec_encode_account(a)) == Some(a),
{
    let s = spec_encode_account(a);
    let tag = tag_seq(a.account_type);
    let n = tag.len() as int;
    assert(s[n] == ':');
    assert forall|j: int| 0 <= j < n implies s[j] != ':' by {
        assert(s[j] == tag[j]);
        assert(is_ascii_alnum(tag[j])) by {
            match a.account_type {
                AccountType::User => {},
                AccountType::PointOfSale => {},
                AccountType::Source => {},
            }
        }
    }
    lemma_find_index_of(s, ':', n);
    assert(s.take(n) =~= tag);
    assert(s.skip(n + 1) =~= a.name);
    assert(tag_type(tag) == Some(a.account_type)) by {
        match a.account_type {
            AccountType::User => {},
            AccountType::PointOfSale => {
                assert(tag_seq(AccountType::PointOfSale).len() == 3);
                assert(tag_seq(AccountType::User).len() == 4);
            },
            AccountType::Source => {
                assert(tag_seq(AccountType::Source).len() == 6);
                assert(tag_seq(AccountType::User).len() == 4);
                assert(tag_seq(AccountType::PointOfSale).len() == 3);
            },
        }
    }
    assert(spec_parse_account(s) == Some(AccountV { account_type: a.account_type, name: a.name }));
    assert(AccountV { account_type: a.account_type, name: a.name } =~= a);
}

/// Checks a string for usage as an account name: it must be non-empty and
/// consist only of ASCII letters and digits.
pub fn validate_account_name(name: &str) -> (r: Result<(), Error>)
    ensures
        r is Ok <==> valid_account_name(name@),
        r is Err ==> r->Err_0 is ValidationError,
{
    let v = str_chars(name);
    let mut i: usize = 0;
    while i < v.len()
        invariant
            i <= v@.len(),
            v@ == name@,
            forall|j: int| 0 <= j < i ==> is_ascii_alnum(v@[j]),
        decreases v@.len() - i,
    {
        if !check_ascii_alnum(v[i]) {
            return Err(
                Error::ValidationError(
                    String::from_str(
                        "Invalid account name, must consist only of ascii characters or digits",
                    ),
                ),
            );
        }
        i = i + 1;
    }
    if v.len() == 0 {
        return Err(
            Error::ValidationError(String::from_str("Invalid account name, may not be empty")),
        );
    }
    Ok(())
}

impl Account {
    /// An account of the given type, after validating the name.
    pub fn new(account_type: AccountType, name: &str) -> (r: Result<Account, Error>)
        ensures
            match r {
                Ok(a) => valid_account_name(name@) && a@ == (AccountV {
                    account_type,
                    name: name@,
                }),
                Err(e) => !valid_account_name(name@) && e is ValidationError,
            },
    {
        match validate_account_name(name) {
            Ok(()) => Ok(Account { account_type, name: String::from_str(name) }),
            Err(e) => Err(e),
        }
    }

    /// A user account, after validating the name.
    pub fn user(name: &str) -> (r: Result<Account, Error>)
        ensures
            match r {
                Ok(a) => valid_account_name(name@) && a@ == (AccountV {
                    account_type: AccountType::User,
                    name: name@,
                }),
                Err(e) => !valid_account_name(name@) && e is ValidationError,
            },
    {
        Account::new(AccountType::User, name)
    }

    /// A point-of-sale account, after validating the name.
    pub fn point_of_sale(name: &str) -> (r: Result<Account, Error>)
        ensures
            match r {
                Ok(a) => valid_account_name(name@) && a@ == (AccountV {
                    account_type: AccountType::PointOfSale,
                    name: name@,
                }),
                Err(e) => !valid_account_name(name@) && e is ValidationError,
            },
    {
        Account::new(AccountType::PointOfSale, name)
    }

    /// A source account, after validating the name.
    pub fn source(name: &str) -> (r: Result<Account, Error>)
        ensures
            match r {
                Ok(a) => valid_account_name(name@) && a@ == (AccountV {
                    account_type: AccountType::Source,
                    name: name@,
                }),
                Err(e) => !valid_account_name(name@) && e is ValidationError,
            },
    {
        Account::new(AccountType::Source, name)
    }

    /// The canonical string encoding `"<type-tag>:<name>"`.
    pub fn encode(&self) -> (r: String)
        ensures
            r@ == spec_encode_account(self@),
    {
        proof {
            lemma_tag_literals();
            reveal_strlit(":");
        }
        let tag = match self.account_type {
            AccountType::User => "user",
            AccountType::PointOfSale => "pos",
            AccountType::Source => "source",
        };
        let r = String::from_str(tag).concat(":").concat(self.name.as_str());
        proof {
            assert(":"@ =~= seq![':']);
            assert(r@ =~= spec_encode_account(self@));
        }
        r
    }

    /// Parses the canonical string encoding of an account. Fails with a
    /// parse error when there is no colon or the type tag is unknown, and
    /// with a validation error when the name after the colon is invalid.
    pub fn parse(s: &str) -> (r: Result<Account, Error>)
        ensures
            match r {
                Ok(a) => spec_parse_account(s@) == Some(a@),
                Err(e) => spec_parse_account(s@) is None && (if account_parse_shape_ok(s@) {
                    e is ValidationError
                } else {
                    e is TransactionParseError
                }),
            },
    {
        proof {
            lemma_tag_literals();
        }
        let v = str_chars(s);
        let colon = match find_char(&v, ':') {
            Some(i) => i,
            None => {
                return Err(
                    Error::TransactionParseError(
                        String::from_str("Account does not contain ':': ").concat(s),
                    ),
                );
            },
        };
        proof {
            lemma_find_index(v@, ':');
        }
        let tag = subrange_chars(&v, 0, colon);
        let user_tag = str_chars("user");
        let pos_tag = str_chars("pos");
        let source_tag = str_chars("source");
        let account_type = if chars_eq(&tag, &user_tag) {
            AccountType::User
        } else if chars_eq(&tag, &pos_tag) {
            AccountType::PointOfSale
        } else if chars_eq(&tag, &source_tag) {
            AccountType::Source
        } else {
            return Err(
                Error::TransactionParseError(String::from_str("Invalid account type: ").concat(s)),
            );
        };
        let name_chars = subrange_chars(&v, colon + 1, v.len());
        let name = chars_string(&name_chars);
        match validate_account_name(name.as_str()) {
            Ok(()) => {
                proof {
                    assert(v@.skip(colon + 1) =~= v@.subrange(colon + 1, v@.len() as int));
                }
                Ok(Account { account_type, name })
            },
            Err(e) => {
                proof {
                    assert(v@.skip(colon + 1) =~= v@.subrange(colon + 1, v@.len() as int));
                }
                Err(e)
            },
        }
    }
}

} // verus!
