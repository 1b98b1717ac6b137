//! Construction of the lazy DFAs used for regex search over terminal text.

use regex_automata::hybrid::dfa::{Builder, Cache, Config, DFA};
use regex_automata::hybrid::BuildError;
use regex_automata::nfa::thompson::Config as ThompsonConfig;
use regex_automata::util::syntax::Config as SyntaxConfig;
use regex_automata::MatchKind;
use vstd::prelude::*;

use crate::index::Direction;
use crate::text::chars_of;

verus! {

/// Declaration of `regex_automata::hybrid::dfa::DFA`, carried opaquely.
#[verifier::external_type_specification]
#[verifier::external_body]
pub struct ExDfa(DFA);

/// Declaration of `regex_automata::hybrid::dfa::Cache`, carried opaquely.
#[verifier::external_type_specification]
#[verifier::external_body]
pub struct ExCache(Cache);

/// Declaration of `regex_automata::hybrid::BuildError`, carried opaquely.
#[verifier::external_type_specification]
#[verifier::external_body]
pub struct ExBuildError(BuildError);

/// Whether `char::is_uppercase` holds of `c` (the Unicode `Uppercase`
/// property).
pub uninterp spec fn char_is_uppercase(c: char) -> bool;

/// `char::is_uppercase`; claimed: the result is `char_is_uppercase(c)`.
#[verifier::external_body]
fn is_uppercase(c: char) -> (upper: bool)
    ensures
        upper == char_is_uppercase(c),
{
    c.is_uppercase()
}

/// Whether a lazy DFA for `pattern` builds with the given case sensitivity,
/// direction, match kind and cache settings.
pub uninterp spec fn lazy_dfa_builds(
    pattern: Seq<char>,
    case_insensitive: bool,
    reverse: bool,
    match_all: bool,
    cache_clear_count: usize,
    bytes_per_state: usize,
) -> bool;

/// Whether the automaton built for `pattern` with these settings can match
/// the empty string.
pub uninterp spec fn lazy_dfa_matches_empty(
    pattern: Seq<char>,
    case_insensitive: bool,
    reverse: bool,
    match_all: bool,
    cache_clear_count: usize,
    bytes_per_state: usize,
) -> bool;

/// Builds a lazy DFA with `regex_automata::hybrid::dfa::Builder`: the syntax
/// is case-insensitive as asked, the Thompson NFA is reversed as asked and
/// limited to the cache capacity, the match kind is `All` or
/// `LeftmostFirst`, and the cache settings are those given. Returns the DFA,
/// a cache for it and `NFA::has_empty`. Claimed: success and `has_empty` are
/// `lazy_dfa_builds` and `lazy_dfa_matches_empty` of the arguments.
#[verifier::external_body]
fn build_lazy_dfa(
    pattern: &str,
    case_insensitive: bool,
    reverse: bool,
    match_all: bool,
    cache_clear_count: usize,
    bytes_per_state: usize,
) -> (built: Result<(DFA, Cache, bool), Box<BuildError>>)
    ensures
        built is Ok == lazy_dfa_builds(
            pattern@,
            case_insensitive,
            reverse,
            match_all,
            cache_clear_count,
            bytes_per_state,
        ),
        built matches Ok(parts) ==> parts.2 == lazy_dfa_matches_empty(
            pattern@,
            case_insensitive,
            reverse,
            match_all,
            cache_clear_count,
            bytes_per_state,
        ),
{
    let kind = if match_all { MatchKind::All } else { MatchKind::LeftmostFirst };
    let config = Config::new().minimum_cache_clear_count(Some(cache_clear_count))
        .minimum_bytes_per_state(Some(bytes_per_state)).match_kind(kind);
    let thompson = ThompsonConfig::new().nfa_size_limit(Some(config.get_cache_capacity()))
        .reverse(reverse);
    let syntax = SyntaxConfig::new().case_insensitive(case_insensitive);
    match Builder::new().configure(config).syntax(syntax).thompson(thompson).build(pattern) {
        Ok(dfa) => {
            let cache = dfa.create_cache();
            let empty = dfa.get_nfa().has_empty();
            Ok((dfa, cache, empty))
        },
        Err(error) => Err(Box::new(error)),
    }
}

/// Minimum number of cache clears before a lazy DFA gives up.
pub const CACHE_CLEAR_COUNT: usize = 3;

/// Minimum bytes searched per DFA state before a lazy DFA gives up.
pub const BYTES_PER_STATE: usize = 10;

/// Whether a search is case-insensitive: only when it has no uppercase
/// letter.
pub open spec fn search_case_insensitive(search: Seq<char>) -> bool {
    !exists|i: int| 0 <= i < search.len() && char_is_uppercase(#[trigger] search[i])
}

/// Whether a lazy DFA with these direction and match settings builds for
/// `search`.
pub open spec fn search_dfa_builds(search: Seq<char>, direction: Direction, match_all: bool) -> bool {
    lazy_dfa_builds(
        search,
        search_case_insensitive(search),
        direction == Direction::Left,
        match_all,
        CACHE_CLEAR_COUNT,
        BYTES_PER_STATE,
    )
}

/// Whether all four search automata build: the match-all forward automaton
/// first, whose ability to match the empty string decides the match kind of
/// the two automata that find match starts.
pub open spec fn search_builds(search: Seq<char>) -> bool {
    let empty = lazy_dfa_matches_empty(
        search,
        search_case_insensitive(search),
        false,
        true,
        CACHE_CLEAR_COUNT,
        BYTES_PER_STATE,
    );
    &&& search_dfa_builds(search, Direction::Right, true)
    &&& search_dfa_builds(search, Direction::Left, empty)
    &&& search_dfa_builds(search, Direction::Right, empty)
    &&& search_dfa_builds(search, Direction::Left, true)
}

/// Runtime-evaluated DFA used for a single direction.
struct LazyDfa {
    dfa: DFA,
    cache: Cache,
    direction: Direction,
    match_all: bool,
}

impl LazyDfa {
    /// Build the automaton for `search` in `direction`.
    fn new(search: &str, case_insensitive: bool, direction: Direction, match_all: bool) -> (built:
        Result<(LazyDfa, bool), Box<BuildError>>)
        ensures
            built is Ok == lazy_dfa_builds(
                search@,
                case_insensitive,
                direction == Direction::Left,
                match_all,
                CACHE_CLEAR_COUNT,
                BYTES_PER_STATE,
            ),
            built matches Ok(parts) ==> parts.0.direction == direction && parts.0.match_all
                == match_all && parts.1 == lazy_dfa_matches_empty(
                search@,
                case_insensitive,
                direction == Direction::Left,
                match_all,
                CACHE_CLEAR_COUNT,
                BYTES_PER_STATE,
            ),
    {
        let reverse = match direction {
            Direction::Left => true,
            Direction::Right => false,
        };
        match build_lazy_dfa(
            search,
            case_insensitive,
            reverse,
            match_all,
            CACHE_CLEAR_COUNT,
            BYTES_PER_STATE,
        ) {
            Ok((dfa, cache, empty)) => Ok((LazyDfa { dfa, cache, direction, match_all }, empty)),
            Err(error) => Err(error),
        }
    }
}

/// Terminal regex search state shared across invocations.
pub struct RegexSearch {
    left_fdfa: LazyDfa,
    left_rdfa: LazyDfa,
    right_rdfa: LazyDfa,
    right_fdfa: LazyDfa,
}

/// Whether `search` has an uppercase letter.
fn has_uppercase(search: &str) -> (upper: bool)
    ensures
        upper == !search_case_insensitive(search@),
{
    let chars = chars_of(search);
    let mut i: usize = 0;
    while i < chars.len()
        invariant
            i <= chars@.len(),
            chars@ == search@,
            forall|j: int| 0 <= j < i ==> !char_is_uppercase(#[trigger] search@[j]),
        decreases chars@.len() - i,
    {
        if is_uppercase(chars[i]) {
            return true;
        }
        i = i + 1;
    }
    false
}

impl RegexSearch {
    /// Direction and match-all setting of the four automata: the forward
    /// and reverse automata used to search leftwards, then those used to
    /// search rightwards.
    pub closed spec fn automata(&self) -> Seq<(Direction, bool)> {
        seq![
            (self.left_fdfa.direction, self.left_fdfa.match_all),
            (self.left_rdfa.direction, self.left_rdfa.match_all),
            (self.right_fdfa.direction, self.right_fdfa.match_all),
            (self.right_rdfa.direction, self.right_rdfa.match_all),
        ]
    }

    /// Build the forward and backward search automata; the search ignores
    /// case unless it holds an uppercase letter.
    pub fn new(search: &str) -> (built: Result<RegexSearch, Box<BuildError>>)
        ensures
            built is Ok == search_builds(search@),
            built matches Ok(regex) ==> ({
                let empty = lazy_dfa_matches_empty(
                    search@,
                    search_case_insensitive(search@),
                    false,
                    true,
                    CACHE_CLEAR_COUNT,
                    BYTES_PER_STATE,
                );
                regex.automata() == seq![
                    (Direction::Left, empty),
                    (Direction::Right, true),
                    (Direction::Right, empty),
                    (Direction::Left, true),
                ]
            }),
    {
        let case_insensitive = !has_uppercase(search);
        let (left_rdfa, has_empty) = match LazyDfa::new(
            search,
            case_insensitive,
            Direction::Right,
            true,
        ) {
            Ok(parts) => parts,
            Err(error) => {
                return Err(error);
            },
        };
        let (left_fdfa, _) = match LazyDfa::new(
            search,
            case_insensitive,
            Direction::Left,
            has_empty,
        ) {
            Ok(parts) => parts,
            Err(error) => {
                return Err(error);
            },
        };
        let (right_fdfa, _) = match LazyDfa::new(
            search,
            case_insensitive,
            Direction::Right,
            has_empty,
        ) {
            Ok(parts) => parts,
            Err(error) => {
                return Err(error);
            },
        };
        let (right_rdfa, _) = match LazyDfa::new(
            search,
            case_insensitive,
            Direction::Left,
            true,
        ) {
            Ok(parts) => parts,
            Err(error) => {
                return Err(error);
            },
        };
        let regex = RegexSearch { left_fdfa, left_rdfa, right_fdfa, right_rdfa };
        proof {
            assert(regex.automata() =~= seq![
                (Direction::Left, has_empty),
                (Direction::Right, true),
                (Direction::Right, has_empty),
                (Direction::Left, true),
            ]);
        }
        Ok(regex)
    }
}

} // verus!
