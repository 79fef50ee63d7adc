use vstd::prelude::*;

use crate::error::Error;
use crate::kv::LineKind;
use crate::kv::LineParts;
use crate::kv::classify_line;
use crate::kv::classify_parts;
use crate::text::canonical_digits;
use crate::text::chars_eq;
use crate::text::chars_string;
use crate::text::digits_val;
use crate::text::msg_lines;
use crate::text::msg_lines_exec;
use crate::text::parse_quoted;
use crate::text::parse_quoted_chars;
use crate::text::parse_u64_digits;
use crate::text::str_chars;
use crate::text::views_of;

verus! {

/// The currency a ledger is denominated in: a display code and the number of
/// minor units per major unit.
#[derive(Debug, PartialEq, Eq)]
pub struct Currency {
    pub code: String,
    pub divisor: usize,
}

/// Ledger-wide settings: a display name and the currency.
#[derive(Debug, PartialEq, Eq)]
pub struct RepoConfig {
    pub name: String,
    pub currency: Currency,
}

/// The mathematical value of a [`Currency`].
#[verifier::ext_equal]
pub ghost struct CurrencyV {
    pub code: Seq<char>,
    pub divisor: usize,
}

/// The mathematical value of a [`RepoConfig`].
#[verifier::ext_equal]
pub ghost struct RepoConfigV {
    pub name: Seq<char>,
    pub currency: CurrencyV,
}

impl View for Currency {
    type V = CurrencyV;

    open spec fn view(&self) -> CurrencyV {
        CurrencyV { code: self.code@, divisor: self.divisor }
    }
}

impl View for RepoConfig {
    type V = RepoConfigV;

    open spec fn view(&self) -> RepoConfigV {
        RepoConfigV { name: self.name@, currency: self.currency@ }
    }
}

// --- Parsing the repository configuration file ---

/// Which table of the configuration a line belongs to.
#[derive(Clone, Copy, Debug)]
pub enum CfgSection {
    Top,
    Currency,
    Other,
}

/// The state of the configuration fold.
#[verifier::ext_equal]
pub ghost struct PartialCfg {
    pub name: Option<Seq<char>>,
    pub code: Option<Seq<char>>,
    pub divisor: Option<usize>,
    pub currency_seen: bool,
    pub section: CfgSection,
}

pub open spec fn cfg_key_name() -> Seq<char> {
    seq!['n', 'a', 'm', 'e']
}

pub open spec fn cfg_key_code() -> Seq<char> {
    seq!['c', 'o', 'd', 'e']
}

pub open spec fn cfg_key_divisor() -> Seq<char> {
    seq!['d', 'i', 'v', 'i', 's', 'o', 'r']
}

pub open spec fn currency_header() -> Seq<char> {
    seq!['[', 'c', 'u', 'r', 'r', 'e', 'n', 'c', 'y', ']']
}

pub open spec fn init_cfg() -> PartialCfg {
    PartialCfg { name: None, code: None, divisor: None, currency_seen: false, section: CfgSection::Top }
}

/// Folds one configuration line: `name` at the top level, `code` and
/// `divisor` inside `[currency]`. The divisor must be a positive integer
/// that fits a `usize`. Unrecognized keys and tables are ignored.
pub open spec fn apply_cfg_line(st: PartialCfg, l: Seq<char>) -> Option<PartialCfg> {
    match classify_line(l) {
        LineKind::Blank => Some(st),
        LineKind::Bad => None,
        LineKind::Header(h) => if h == currency_header() {
            if st.currency_seen {
                None
            } else {
                Some(PartialCfg { section: CfgSection::Currency, currency_seen: true, ..st })
            }
        } else {
            Some(PartialCfg { section: CfgSection::Other, ..st })
        },
        LineKind::Pair(k, w) => match st.section {
            CfgSection::Top => if k == cfg_key_name() {
                if st.name is Some {
                    None
                } else {
                    match parse_quoted(w) {
                        Some(q) => Some(PartialCfg { name: Some(q), ..st }),
                        None => None,
                    }
                }
            } else {
                Some(st)
            },
            CfgSection::Currency => if k == cfg_key_code() {
                if st.code is Some {
                    None
                } else {
                    match parse_quoted(w) {
                        Some(q) => Some(PartialCfg { code: Some(q), ..st }),
                        None => None,
                    }
                }
            } else if k == cfg_key_divisor() {
                if st.divisor is Some {
                    None
                } else if canonical_digits(w) && 1 <= digits_val(w) <= usize::MAX {
                    Some(PartialCfg { divisor: Some(digits_val(w) as usize), ..st })
                } else {
                    None
                }
            } else {
                Some(st)
            },
            CfgSection::Other => Some(st),
        },
    }
}

pub open spec fn cfg_fold(ls: Seq<Seq<char>>) -> Option<PartialCfg>
    decreases ls.len(),
{
    if ls.len() == 0 {
        Some(init_cfg())
    } else {
        match cfg_fold(ls.drop_last()) {
            Some(st) => apply_cfg_line(st, ls.last()),
            None => None,
        }
    }
}

/// Once a prefix of the configuration fold fails, the whole fold fails.
proof fn lemma_cfg_prefix_none(ls: Seq<Seq<char>>, k: int)
    requires
        0 <= k <= ls.len(),
        cfg_fold(ls.take(k)) is None,
    ensures
        cfg_fold(ls) is None,
    decreases ls.len() - k,
{
    if k < ls.len() {
        assert(ls.take(k + 1).drop_last() =~= ls.take(k));
        lemma_cfg_prefix_none(ls, k + 1);
    } else {
        assert(ls.take(k) =~= ls);
    }
}

/// The fold only ever records a positive divisor.
proof fn lemma_apply_cfg_divisor(st: PartialCfg, l: Seq<char>)
    requires
        st.divisor is Some ==> st.divisor->0 >= 1,
        apply_cfg_line(st, l) is Some,
    ensures
        apply_cfg_line(st, l)->0.divisor is Some ==> apply_cfg_line(st, l)->0.divisor->0 >= 1,
{
}

pub open spec fn finish_cfg(st: PartialCfg) -> Option<RepoConfigV> {
    if st.name is Some && st.code is Some && st.divisor is Some {
        Some(
            RepoConfigV {
                name: st.name->0,
                currency: CurrencyV { code: st.code->0, divisor: st.divisor->0 },
            },
        )
    } else {
        None
    }
}

/// The configuration denoted by the text of `gitcash.toml`, if it parses.
pub open spec fn spec_parse_config(s: Seq<char>) -> Option<RepoConfigV> {
    match cfg_fold(msg_lines(s)) {
        Some(st) => finish_cfg(st),
        None => None,
    }
}

/// The runtime state of the configuration fold.
struct CfgState {
    name: Option<String>,
    code: Option<String>,
    divisor: Option<usize>,
    currency_seen: bool,
    section: CfgSection,
}

impl View for CfgState {
    type V = PartialCfg;

    closed spec fn view(&self) -> PartialCfg {
        PartialCfg {
            name: match self.name {
                Some(n) => Some(n@),
                None => None,
            },
            code: match self.code {
                Some(c) => Some(c@),
                None => None,
            },
            divisor: self.divisor,
            currency_seen: self.currency_seen,
            section: self.section,
        }
    }
}

fn cfg_error() -> (r: Error)
    ensures
        r is RepoError,
{
    Error::RepoError(String::from_str("Could not parse gitcash.toml"))
}

/// Folds one configuration line into the runtime state.
fn apply_cfg_parts(st: &mut CfgState, line: &Vec<char>) -> (r: Result<(), Error>)
    ensures
        match r {
            Ok(()) => apply_cfg_line(old(st)@, line@) == Some(final(st)@),
            Err(e) => apply_cfg_line(old(st)@, line@) is None && e is RepoError,
        },
{
    proof {
        lemma_cfg_literals();
    }
    match classify_parts(line) {
        LineParts::Blank => Ok(()),
        LineParts::Bad => Err(cfg_error()),
        LineParts::Header(h) => {
            if chars_eq(&h, &str_chars("[currency]")) {
                if st.currency_seen {
                    Err(cfg_error())
                } else {
                    st.currency_seen = true;
                    st.section = CfgSection::Currency;
                    Ok(())
                }
            } else {
                st.section = CfgSection::Other;
                Ok(())
            }
        },
        LineParts::Pair(k, w) => {
            match st.section {
                CfgSection::Top => {
                    if chars_eq(&k, &str_chars("name")) {
                        if st.name.is_some() {
                            return Err(cfg_error());
                        }
                        proof {
                            assert(w@.subrange(0, w@.len() as int) =~= w@);
                        }
                        match parse_quoted_chars(&w, 0, w.len()) {
                            Some(q) => {
                                st.name = Some(chars_string(&q));
                                Ok(())
                            },
                            None => Err(cfg_error()),
                        }
                    } else {
                        Ok(())
                    }
                },
                CfgSection::Currency => {
                    if chars_eq(&k, &str_chars("code")) {
                        if st.code.is_some() {
                            return Err(cfg_error());
                        }
                        proof {
                            assert(w@.subrange(0, w@.len() as int) =~= w@);
                        }
                        match parse_quoted_chars(&w, 0, w.len()) {
                            Some(q) => {
                                st.code = Some(chars_string(&q));
                                Ok(())
                            },
                            None => Err(cfg_error()),
                        }
                    } else if chars_eq(&k, &str_chars("divisor")) {
                        if st.divisor.is_some() {
                            return Err(cfg_error());
                        }
                        proof {
                            assert(w@.subrange(0, w@.len() as int) =~= w@);
                        }
                        match parse_u64_digits(&w, 0, w.len()) {
                            Some(n) => {
                                if n >= 1 && n <= (usize::MAX as u64) {
                                    st.divisor = Some(n as usize);
                                    Ok(())
                                } else {
                                    Err(cfg_error())
                                }
                            },
                            None => Err(cfg_error()),
                        }
                    } else {
                        Ok(())
                    }
                },
                CfgSection::Other => Ok(()),
            }
        },
    }
}

/// The views of the configuration-key literals equal their spellings.
proof fn lemma_cfg_literals()
    ensures
        "name"@ == cfg_key_name(),
        "code"@ == cfg_key_code(),
        "divisor"@ == cfg_key_divisor(),
        "[currency]"@ == currency_header(),
{
    reveal_strlit("name");
    reveal_strlit("code");
    reveal_strlit("divisor");
    reveal_strlit("[currency]");
    assert("name"@ =~= cfg_key_name());
    assert("code"@ =~= cfg_key_code());
    assert("divisor"@ =~= cfg_key_divisor());
    assert("[currency]"@ =~= currency_header());
}

impl RepoConfig {
    /// Parses the text of `gitcash.toml`: a top-level `name` and a
    /// `[currency]` table with `code` and a positive `divisor`. Unreadable
    /// contents are a repository error.
    #[verifier::loop_isolation(false)]
    pub fn from_str(config_string: &str) -> (r: Result<RepoConfig, Error>)
        ensures
            match r {
                Ok(c) => spec_parse_config(config_string@) == Some(c@) && c@.currency.divisor >= 1,
                Err(e) => spec_parse_config(config_string@) is None && e is RepoError,
            },
    {
        let v = str_chars(config_string);
        let lines = msg_lines_exec(&v);
        let ghost ls = msg_lines(config_string@);
        let mut st = CfgState {
            name: None,
            code: None,
            divisor: None,
            currency_seen: false,
            section: CfgSection::Top,
        };
        proof {
            assert(st@ =~= init_cfg());
            assert(ls.take(0) =~= Seq::<Seq<char>>::empty());
        }
        let mut i: usize = 0;
        while i < lines.len()
            invariant
                i <= lines@.len(),
                ls == views_of(lines@),
                cfg_fold(ls.take(i as int)) == Some(st@),
                st@.divisor is Some ==> st@.divisor->0 >= 1,
            decreases lines@.len() - i,
        {
            let ghost st_before = st@;
            proof {
                assert(ls[i as int] == lines@[i as int]@);
                assert(ls.take(i as int + 1).drop_last() =~= ls.take(i as int));
                assert(ls.take(i as int + 1).last() == ls[i as int]);
            }
            match apply_cfg_parts(&mut st, &lines[i]) {
                Ok(()) => {
                    proof {
                        lemma_apply_cfg_divisor(st_before, ls[i as int]);
                    }
                },
                Err(e) => {
                    proof {
                        lemma_cfg_prefix_none(ls, i as int + 1);
                    }
                    return Err(e);
                },
            }
            i = i + 1;
        }
        proof {
            assert(ls.take(ls.len() as int) =~= ls);
        }
        let ghost stv = st@;
        let CfgState { name, code, divisor, currency_seen: _seen, section: _sec } = st;
        match (name, code, divisor) {
            (Some(n), Some(c), Some(d)) => {
                let cfg = RepoConfig { name: n, currency: Currency { code: c, divisor: d } };
                proof {
                    assert(stv.name is Some && stv.code is Some && stv.divisor is Some);
                    assert(finish_cfg(stv) is Some);
                    assert(spec_parse_config(config_string@)->0 =~~= cfg@);
                    assert(spec_parse_config(config_string@) == Some(cfg@));
                }
                Ok(cfg)
            },
            _ => {
                proof {
                    assert(finish_cfg(stv) is None);
                }
                Err(cfg_error())
            },
        }
    }
}

} // verus!
