//! History search: the entries that hold the query, whatever the case of
//! their letters.
//!
//! The query is taken as literal text. It is escaped, given the flag that
//! switches case off, and compiled by the `regex` crate; an entry is selected
//! where the compiled expression finds a match in it.

use crate::history::HistoryLog;
use crate::text::copy_texts;
use regex::Regex;
use vstd::prelude::*;
use vstd::string::*;

verus! {

/// `regex::Regex`, a compiled expression. Nothing is known of what is
/// inside one but the texts that it accepts.
#[verifier::external_type_specification]
#[verifier::external_body]
pub struct ExRegex(regex::Regex);

/// `regex::Error`, the reason why a pattern was not compiled. It is only
/// told apart from success.
#[verifier::external_type_specification]
#[verifier::external_body]
pub struct ExRegexError(regex::Error);

/// The texts in which a compiled expression finds a match.
pub uninterp spec fn accepted(expression: Regex) -> Set<Seq<char>>;

/// The texts in which the expression written as `pattern` finds a match once
/// it has been compiled.
pub uninterp spec fn language(pattern: Seq<char>) -> Set<Seq<char>>;

/// Whether `c` has a meaning of its own in the syntax of expressions.
pub open spec fn is_meta(c: char) -> bool {
    c == '\\' || c == '.' || c == '+' || c == '*' || c == '?' || c == '(' || c == ')' || c == '|'
        || c == '[' || c == ']' || c == '{' || c == '}' || c == '^' || c == '$' || c == '#' || c
        == '&' || c == '-' || c == '~'
}

/// `text` with a backslash before each of its characters that has a meaning
/// in the syntax of expressions.
pub open spec fn escaped(text: Seq<char>) -> Seq<char>
    decreases text.len(),
{
    if text.len() == 0 {
        Seq::empty()
    } else if is_meta(text.last()) {
        escaped(text.drop_last()).push('\\').push(text.last())
    } else {
        escaped(text.drop_last()).push(text.last())
    }
}

/// `regex::escape`: the pattern with a backslash put before each character
/// that the expression syntax gives a meaning, and nothing else changed.
pub assume_specification[ regex::escape ](pattern: &str) -> (quoted: String)
    ensures
        quoted@ == escaped(pattern@),
;

/// `Regex::new`: compiles a pattern. Whether it succeeds is left open; an
/// expression that it gives accepts what the pattern stands for.
pub assume_specification[ Regex::new ](re: &str) -> (compiled: Result<Regex, regex::Error>)
    ensures
        compiled matches Ok(expression) ==> accepted(expression) == language(re@),
;

/// `Regex::is_match`: whether the expression finds a match anywhere in the
/// haystack.
pub assume_specification[ Regex::is_match ](expression: &Regex, haystack: &str) -> (found: bool)
    ensures
        found == accepted(*expression).contains(haystack@),
;

/// Why a search could not be made.
#[derive(Clone, Copy, PartialEq, Eq, Structural, Debug)]
pub enum SearchError {
    /// The expression for the query could not be compiled.
    QueryRejected,
}

/// The pattern that a query is searched by: the flag that switches case off,
/// then the query as literal text.
pub open spec fn search_pattern(query: Seq<char>) -> Seq<char> {
    "(?i)"@ + escaped(query)
}

/// Whether a search for `query` selects `entry`. The empty query selects
/// every entry.
pub open spec fn selects(query: Seq<char>, entry: Seq<char>) -> bool {
    query.len() == 0 || language(search_pattern(query)).contains(entry)
}

/// The entries of `snapshot` that a search for `query` selects, in their order.
pub open spec fn selected(snapshot: Seq<Seq<char>>, query: Seq<char>) -> Seq<Seq<char>> {
    snapshot.filter(|entry: Seq<char>| selects(query, entry))
}

/// The entries of `snapshot` that `expression` accepts, in their order.
pub open spec fn matching(snapshot: Seq<Seq<char>>, expression: Regex) -> Seq<Seq<char>> {
    snapshot.filter(|entry: Seq<char>| accepted(expression).contains(entry))
}

/// The pattern for `query`.
pub fn pattern_for(query: &str) -> (pattern: String)
    ensures
        pattern@ == search_pattern(query@),
{
    let quoted = regex::escape(query);
    String::from_str("(?i)").concat(quoted.as_str())
}

/// The entries in which `expression` finds a match, in their order.
pub fn select_matching(entries: &Vec<String>, expression: &Regex) -> (found: Vec<String>)
    ensures
        found.deep_view() == matching(entries.deep_view(), *expression),
{
    let ghost all = entries.deep_view();
    let ghost accepts = |entry: Seq<char>| accepted(*expression).contains(entry);
    let n: usize = entries.len();
    let mut found: Vec<String> = Vec::new();
    let mut i: usize = 0;
    proof {
        reveal(Seq::filter);
        assert(all.take(0) =~= Seq::<Seq<char>>::empty());
        assert(found.deep_view() =~= all.take(0).filter(accepts));
    }
    while i < n
        invariant
            i <= n,
            n == entries.len(),
            all == entries.deep_view(),
            accepts == |entry: Seq<char>| accepted(*expression).contains(entry),
            found.deep_view() == all.take(i as int).filter(accepts),
        decreases n - i,
    {
        let ghost before = found.deep_view();
        proof {
            assert(all.take(i + 1) =~= all.take(i as int).push(all[i as int]));
            all.take(i as int).lemma_filter_push(all[i as int], accepts);
            assert(all[i as int] == entries@[i as int]@);
        }
        if expression.is_match(entries[i].as_str()) {
            found.push(entries[i].clone());
            assert(found.deep_view() =~= before.push(all[i as int]));
        }
        i += 1;
    }
    assert(all.take(n as int) =~= all);
    found
}

/// The entries of `history` that hold `query`, whatever the case of their
/// letters, in the order in which they were submitted. The empty query
/// selects every entry, and no expression is compiled for it.
pub fn search_history(history: &HistoryLog, query: &str) -> (r: Result<Vec<String>, SearchError>)
    ensures
        query@.len() == 0 ==> r is Ok,
        r matches Ok(found) ==> found.deep_view() == selected(history@, query@),
{
    if query.unicode_len() == 0 {
        proof {
            assert(query@ =~= Seq::<char>::empty());
            lemma_empty_query_selects_all(history@);
        }
        return Ok(copy_texts(history.entries()));
    }
    let pattern = pattern_for(query);
    match Regex::new(pattern.as_str()) {
        Ok(expression) => {
            let found = select_matching(history.entries(), &expression);
            assert(matching(history@, expression) == selected(history@, query@)) by {
                assert((|entry: Seq<char>| accepted(expression).contains(entry)) =~= (|
                    entry: Seq<char>,
                | selects(query@, entry)));
            }
            Ok(found)
        },
        Err(_) => Err(SearchError::QueryRejected),
    }
}

/// A search for the empty query returns the whole history in its order.
pub proof fn lemma_empty_query_selects_all(snapshot: Seq<Seq<char>>)
    ensures
        selected(snapshot, Seq::empty()) == snapshot,
    decreases snapshot.len(),
{
    reveal(Seq::filter);
    if snapshot.len() > 0 {
        lemma_empty_query_selects_all(snapshot.drop_last());
        assert(snapshot.drop_last().push(snapshot.last()) =~= snapshot);
    }
}

/// Whether `places` lists, in rising order, places of `whole` at which the
/// items of `part` stand one after the other.
pub open spec fn embeds<A>(places: Seq<int>, part: Seq<A>, whole: Seq<A>) -> bool {
    &&& places.len() == part.len()
    &&& forall|i: int|
        0 <= i < places.len() ==> 0 <= #[trigger] places[i] < whole.len() && whole[places[i]]
            == part[i]
    &&& forall|i: int, j: int|
        0 <= i < j < places.len() ==> #[trigger] places[i] < #[trigger] places[j]
}

/// Whether `part` is what is left of `whole` once some of its items are
/// taken out: the same items in the same order.
pub open spec fn is_subsequence<A>(part: Seq<A>, whole: Seq<A>) -> bool {
    exists|places: Seq<int>| embeds(places, part, whole)
}

/// What a filter keeps stands in what it was given, in the same order.
pub proof fn lemma_filter_is_subsequence<A>(whole: Seq<A>, keep: spec_fn(A) -> bool) -> (places:
    Seq<int>)
    ensures
        embeds(places, whole.filter(keep), whole),
        is_subsequence(whole.filter(keep), whole),
    decreases whole.len(),
{
    reveal(Seq::filter);
    if whole.len() == 0 {
        let places = Seq::<int>::empty();
        assert(embeds(places, whole.filter(keep), whole));
        places
    } else {
        let front = whole.drop_last();
        let inner = lemma_filter_is_subsequence(front, keep);
        let places = if keep(whole.last()) {
            inner.push(whole.len() - 1)
        } else {
            inner
        };
        let part = whole.filter(keep);
        assert forall|i: int| 0 <= i < places.len() implies 0 <= #[trigger] places[i] < whole.len()
            && whole[places[i]] == part[i] by {
            if i < inner.len() {
                assert(places[i] == inner[i]);
                assert(front[inner[i]] == whole[inner[i]]);
            }
        }
        assert forall|i: int, j: int| 0 <= i < j < places.len() implies #[trigger] places[i]
            < #[trigger] places[j] by {
            assert(places[i] == inner[i]);
            if j < inner.len() {
                assert(places[j] == inner[j]);
            }
        }
        assert(embeds(places, part, whole));
        places
    }
}

/// What a search returns is left of the history once some entries are taken
/// out, in the order in which it stands there; and the search selects each
/// entry that it returns.
pub proof fn lemma_selected_in_order(snapshot: Seq<Seq<char>>, query: Seq<char>)
    ensures
        is_subsequence(selected(snapshot, query), snapshot),
        forall|i: int|
            0 <= i < selected(snapshot, query).len() ==> selects(
                query,
                #[trigger] selected(snapshot, query)[i],
            ),
{
    let keep = |entry: Seq<char>| selects(query, entry);
    lemma_filter_is_subsequence(snapshot, keep);
    assert forall|i: int| 0 <= i < selected(snapshot, query).len() implies selects(
        query,
        #[trigger] selected(snapshot, query)[i],
    ) by {
        snapshot.lemma_filter_pred(keep, i);
    }
}

} // verus!
