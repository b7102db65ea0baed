//! Search over the stored records: by text, by regular expression, and by
//! saved criteria, with snippets that show where a query was found.
//!
//! The service searches the records that its caller hands it.

use crate::ids::fresh_id;
use crate::ids::ID_LENGTH;
use crate::models::email::Email;
use crate::models::email::EmailContent;
use crate::models::email::EmailFilter;
use crate::models::email::keyword_found;
use crate::models::email::lowercase_contains;
use crate::models::email::pick;
use crate::models::email::text_contains;
use crate::pattern::first_match;
use crate::pattern::Pattern;
use crate::pattern::pattern_compiles;
use crate::pattern::refusal_text;
use crate::services::email_service::NamedCount;
use crate::services::tally::distinct;
use crate::services::tally::tally;
use crate::text::chars_of;
use crate::text::contains_text;
use crate::text::find_text;
use crate::text::first_occurrence;
use crate::text::lemma_text_order;
use crate::text::lemma_text_order_transitive;
use crate::text::lowercase;
use crate::text::precedes;
use crate::text::push_replaced;
use crate::text::ranges_within;
use crate::text::replaced;
use crate::text::same_text;
use crate::text::slices_of;
use crate::text::split_words;
use crate::text::starts_with;
use crate::text::string_of;
use crate::text::text_before;
use crate::text::words_of;
use crate::time::now;
use crate::time::Timestamp;
use vstd::prelude::*;
use vstd::string::StringExecFns;

verus! {

/// The part of a record that a query is looked for in.
#[derive(Debug, Clone, Copy, PartialEq, Eq, Structural)]
pub enum SearchField {
    Subject,
    Body,
    Sender,
    Recipient,
    All,
}

/// A query with the way to read it, and a filter that the records must pass
/// first.
#[derive(Debug, Clone)]
pub struct AdvancedSearchCriteria {
    pub query: String,
    pub field: SearchField,
    pub use_regex: bool,
    pub case_sensitive: bool,
    pub filter: EmailFilter,
}

/// Criteria kept under a name.
#[derive(Debug, Clone)]
pub struct SavedSearch {
    pub id: String,
    pub name: String,
    pub criteria: AdvancedSearchCriteria,
    pub created_at: Timestamp,
}

/// The snippets that show a query in one record.
#[derive(Debug, Clone, PartialEq, Eq)]
pub struct Highlight {
    pub email_id: String,
    pub snippets: Vec<String>,
}

/// What a search gave. The time is for the caller to fill in, who has the
/// clock.
#[derive(Debug, Clone)]
pub struct SearchResult {
    pub emails: Vec<Email>,
    pub total_count: usize,
    pub search_time_ms: u128,
    pub highlights: Vec<Highlight>,
}

/// Why a search gave no result.
#[derive(Debug, Clone, PartialEq, Eq)]
pub enum SearchError {
    /// The regular expression was refused, for the reason given.
    InvalidPattern(String),
    /// No saved search has the identifier.
    NotFound,
}

/// The searches that a user has saved.
#[derive(Debug, Clone)]
pub struct SearchService {
    pub saved_searches: Vec<SavedSearch>,
}

/// The number of characters shown on either side of a query in a snippet.
pub const SNIPPET_MARGIN: usize = 20;

/// Whether the pattern matches in the field of the record; with `All`, in
/// any of subject, body, sender and recipient.
pub open spec fn pattern_hits(e: EmailContent, field: SearchField, pattern: Seq<char>) -> bool {
    match field {
        SearchField::Subject => first_match(pattern, e.subject) is Some,
        SearchField::Body => first_match(pattern, e.body) is Some,
        SearchField::Sender => first_match(pattern, e.sender) is Some,
        SearchField::Recipient => first_match(pattern, e.recipient) is Some,
        SearchField::All => first_match(pattern, e.subject) is Some || first_match(
            pattern,
            e.body,
        ) is Some || first_match(pattern, e.sender) is Some || first_match(
            pattern,
            e.recipient,
        ) is Some,
    }
}

/// The text in which a query is looked for: the text itself, or its
/// lower-case form where letter case is to be ignored.
pub open spec fn folded(text: Seq<char>, case_sensitive: bool) -> Seq<char> {
    if case_sensitive {
        text
    } else {
        lowercase(text)
    }
}

/// Whether the query stands in the field of the record; with `All`, in any
/// of subject, body, sender and recipient.
pub open spec fn text_hits(
    e: EmailContent,
    field: SearchField,
    query: Seq<char>,
    case_sensitive: bool,
) -> bool {
    let q = folded(query, case_sensitive);
    match field {
        SearchField::Subject => contains_text(folded(e.subject, case_sensitive), q),
        SearchField::Body => contains_text(folded(e.body, case_sensitive), q),
        SearchField::Sender => contains_text(folded(e.sender, case_sensitive), q),
        SearchField::Recipient => contains_text(folded(e.recipient, case_sensitive), q),
        SearchField::All => contains_text(folded(e.subject, case_sensitive), q) || contains_text(
            folded(e.body, case_sensitive),
            q,
        ) || contains_text(folded(e.sender, case_sensitive), q) || contains_text(
            folded(e.recipient, case_sensitive),
            q,
        ),
    }
}

/// The regular expression that the criteria ask for: the query, told to
/// ignore letter case unless the search is case-sensitive.
pub open spec fn pattern_of(query: Seq<char>, case_sensitive: bool) -> Seq<char> {
    if case_sensitive {
        query
    } else {
        "(?i)"@ + query
    }
}

impl AdvancedSearchCriteria {
    /// Whether the criteria ask for a regular expression that is refused.
    pub open spec fn refused(&self) -> bool {
        self.query@.len() > 0 && self.use_regex && !pattern_compiles(
            pattern_of(self.query@, self.case_sensitive),
        )
    }

    /// Whether the criteria select a record with this content: it passes
    /// the filter, and the query, unless empty, is found in the field.
    pub open spec fn selects(&self, e: EmailContent) -> bool {
        &&& self.filter.accepts(e)
        &&& self.query@.len() > 0 ==> if self.use_regex {
            pattern_hits(e, self.field, pattern_of(self.query@, self.case_sensitive))
        } else {
            text_hits(e, self.field, self.query@, self.case_sensitive)
        }
    }

    /// A copy of the criteria.
    pub fn duplicate(&self) -> (copy: AdvancedSearchCriteria)
        ensures
            copy == *self,
    {
        AdvancedSearchCriteria {
            query: self.query.clone(),
            field: self.field,
            use_regex: self.use_regex,
            case_sensitive: self.case_sensitive,
            filter: self.filter.duplicate(),
        }
    }
}

impl SavedSearch {
    /// A copy of the saved search.
    pub fn duplicate(&self) -> (copy: SavedSearch)
        ensures
            copy == *self,
    {
        SavedSearch {
            id: self.id.clone(),
            name: self.name.clone(),
            criteria: self.criteria.duplicate(),
            created_at: self.created_at,
        }
    }
}

/// The records that hold `query`, letter case aside.
pub open spec fn holding(query: Seq<char>) -> spec_fn(Email) -> bool {
    |e: Email| keyword_found(e.content(), query)
}

/// The records in whose field `pattern` matches.
pub open spec fn matching(field: SearchField, pattern: Seq<char>) -> spec_fn(Email) -> bool {
    |e: Email| pattern_hits(e.content(), field, pattern)
}

/// The records that `criteria` select.
pub open spec fn selected_by(criteria: AdvancedSearchCriteria) -> spec_fn(Email) -> bool {
    |e: Email| criteria.selects(e.content())
}

/// Whether the pattern matches in the field of the record.
fn pattern_hits_email(email: &Email, field: SearchField, pattern: &Pattern) -> (r: bool)
    ensures
        r == pattern_hits(email.content(), field, pattern@),
{
    match field {
        SearchField::Subject => pattern.is_match(email.subject.as_str()),
        SearchField::Body => pattern.is_match(email.body.as_str()),
        SearchField::Sender => pattern.is_match(email.sender.as_str()),
        SearchField::Recipient => pattern.is_match(email.recipient.as_str()),
        SearchField::All => pattern.is_match(email.subject.as_str()) || pattern.is_match(
            email.body.as_str(),
        ) || pattern.is_match(email.sender.as_str()) || pattern.is_match(email.recipient.as_str()),
    }
}

/// Whether `needle` stands in `text`, read as the search asks.
fn folded_contains(text: &str, needle: &str, case_sensitive: bool) -> (r: bool)
    ensures
        r == contains_text(folded(text@, case_sensitive), needle@),
{
    if case_sensitive {
        text_contains(text, needle)
    } else {
        lowercase_contains(text, needle)
    }
}

/// Whether the folded query `q` stands in the field of the record.
fn text_hits_email(email: &Email, field: SearchField, q: &str, case_sensitive: bool) -> (r: bool)
    ensures
        r == match field {
            SearchField::Subject => contains_text(folded(email.subject@, case_sensitive), q@),
            SearchField::Body => contains_text(folded(email.body@, case_sensitive), q@),
            SearchField::Sender => contains_text(folded(email.sender@, case_sensitive), q@),
            SearchField::Recipient => contains_text(folded(email.recipient@, case_sensitive), q@),
            SearchField::All => contains_text(folded(email.subject@, case_sensitive), q@)
                || contains_text(folded(email.body@, case_sensitive), q@) || contains_text(
                folded(email.sender@, case_sensitive),
                q@,
            ) || contains_text(folded(email.recipient@, case_sensitive), q@),
        },
{
    match field {
        SearchField::Subject => folded_contains(email.subject.as_str(), q, case_sensitive),
        SearchField::Body => folded_contains(email.body.as_str(), q, case_sensitive),
        SearchField::Sender => folded_contains(email.sender.as_str(), q, case_sensitive),
        SearchField::Recipient => folded_contains(email.recipient.as_str(), q, case_sensitive),
        SearchField::All => folded_contains(email.subject.as_str(), q, case_sensitive)
            || folded_contains(email.body.as_str(), q, case_sensitive) || folded_contains(
            email.sender.as_str(),
            q,
            case_sensitive,
        ) || folded_contains(email.recipient.as_str(), q, case_sensitive),
    }
}

/// The part of `text` around the first place where it holds `query`,
/// letter case aside, with each occurrence of `query` as it is written set
/// between `**`; the whole text where the query is not found. Places are
/// counted in characters, and the part lies within the text.
pub open spec fn snippet(text: Seq<char>, query: Seq<char>) -> Seq<char> {
    if contains_text(lowercase(text), lowercase(query)) {
        let at = first_occurrence(lowercase(text), lowercase(query));
        let from = if at <= SNIPPET_MARGIN {
            0
        } else if at - SNIPPET_MARGIN <= text.len() {
            at - SNIPPET_MARGIN
        } else {
            text.len() as int
        };
        let to = if at + query.len() + SNIPPET_MARGIN <= text.len() {
            at + query.len() + SNIPPET_MARGIN
        } else {
            text.len() as int
        };
        let end = if to < from {
            from
        } else {
            to
        };
        replaced(text.subrange(from, end), query, "**"@ + query + "**"@)
    } else {
        text
    }
}

/// The snippet of `text` for `query`.
pub fn highlight_text(text: &str, query: &str) -> (r: String)
    ensures
        r@ == snippet(text@, query@),
{
    let lower_text = text.to_lowercase();
    let lower_query = query.to_lowercase();
    let hay = chars_of(lower_text.as_str());
    let needle = chars_of(lower_query.as_str());
    match find_text(&hay, &needle) {
        Some(at) => {
            let chars = chars_of(text);
            let what = chars_of(query);
            let from: usize = if at <= SNIPPET_MARGIN {
                0
            } else if at - SNIPPET_MARGIN <= chars.len() {
                at - SNIPPET_MARGIN
            } else {
                chars.len()
            };
            let to: usize = if what.len() <= chars.len() && SNIPPET_MARGIN <= chars.len()
                - what.len() && at <= chars.len() - what.len() - SNIPPET_MARGIN {
                at + what.len() + SNIPPET_MARGIN
            } else {
                chars.len()
            };
            let end: usize = if to < from {
                from
            } else {
                to
            };
            let mut marked = String::from_str("**");
            marked.append(query);
            marked.append("**");
            let with = chars_of(marked.as_str());
            let mut out = String::new();
            push_replaced(&mut out, &chars, from, end, &what, &with);
            assert(out@ =~= replaced(text@.subrange(from as int, end as int), query@, with@));
            out
        },
        None => text.to_owned(),
    }
}

/// Whether `text` holds `query`, letter case aside.
pub open spec fn shows(text: Seq<char>, query: Seq<char>) -> bool {
    contains_text(lowercase(text), lowercase(query))
}

/// The snippet of `text` after `label`, where the text holds the query.
pub open spec fn labelled(label: Seq<char>, text: Seq<char>, query: Seq<char>) -> Seq<Seq<char>> {
    if shows(text, query) {
        seq![label + snippet(text, query)]
    } else {
        Seq::empty()
    }
}

/// The snippets of one record: that of the field; with `All`, those of
/// subject, body and sender, each after its label.
pub open spec fn snippets_of(e: EmailContent, query: Seq<char>, field: SearchField) -> Seq<
    Seq<char>,
> {
    match field {
        SearchField::Subject => labelled(Seq::empty(), e.subject, query),
        SearchField::Body => labelled(Seq::empty(), e.body, query),
        SearchField::Sender => labelled(Seq::empty(), e.sender, query),
        SearchField::Recipient => labelled(Seq::empty(), e.recipient, query),
        SearchField::All => labelled("主题: "@, e.subject, query) + labelled(
            "内容: "@,
            e.body,
            query,
        ) + labelled("发件人: "@, e.sender, query),
    }
}

/// The texts, as the contracts speak of them.
pub open spec fn texts_of(texts: Seq<String>) -> Seq<Seq<char>> {
    texts.map_values(|s: String| s@)
}

/// The highlights, as the contracts speak of them: the identifier of each
/// record with its snippets.
pub open spec fn highlight_views(highlights: Seq<Highlight>) -> Seq<(Seq<char>, Seq<Seq<char>>)> {
    highlights.map_values(|h: Highlight| (h.email_id@, texts_of(h.snippets@)))
}

/// The highlights of the records, in their order: one for each record that
/// has a snippet. An empty query has no highlights.
pub open spec fn highlights_of(emails: Seq<Email>, query: Seq<char>, field: SearchField) -> Seq<
    (Seq<char>, Seq<Seq<char>>),
>
    decreases emails.len(),
{
    if query.len() == 0 || emails.len() == 0 {
        Seq::empty()
    } else {
        let before = highlights_of(emails.drop_last(), query, field);
        let snippets = snippets_of(emails.last().content(), query, field);
        if snippets.len() > 0 {
            before.push((emails.last().id@, snippets))
        } else {
            before
        }
    }
}

/// Appends the snippet of `text` after `label`, where the text holds the
/// query.
fn push_labelled(snippets: &mut Vec<String>, label: &str, text: &str, query: &str)
    ensures
        texts_of(final(snippets)@) == texts_of(old(snippets)@) + labelled(label@, text@, query@),
{
    let lower_query = query.to_lowercase();
    if lowercase_contains(text, lower_query.as_str()) {
        let mut entry = String::from_str(label);
        let shown = highlight_text(text, query);
        entry.append(shown.as_str());
        let ghost before = snippets@;
        snippets.push(entry);
        assert(texts_of(snippets@) =~= texts_of(before).push(entry@));
        assert(texts_of(snippets@) =~= texts_of(before) + labelled(label@, text@, query@));
    } else {
        assert(texts_of(snippets@) =~= texts_of(snippets@) + labelled(label@, text@, query@));
    }
}

/// The snippets of one record.
fn snippets_for(email: &Email, query: &str, field: SearchField) -> (snippets: Vec<String>)
    ensures
        texts_of(snippets@) == snippets_of(email.content(), query@, field),
{
    let mut snippets: Vec<String> = Vec::new();
    assert(texts_of(snippets@) =~= Seq::<Seq<char>>::empty());
    match field {
        SearchField::Subject => push_labelled(&mut snippets, "", email.subject.as_str(), query),
        SearchField::Body => push_labelled(&mut snippets, "", email.body.as_str(), query),
        SearchField::Sender => push_labelled(&mut snippets, "", email.sender.as_str(), query),
        SearchField::Recipient => push_labelled(&mut snippets, "", email.recipient.as_str(), query),
        SearchField::All => {
            push_labelled(&mut snippets, "主题: ", email.subject.as_str(), query);
            push_labelled(&mut snippets, "内容: ", email.body.as_str(), query);
            push_labelled(&mut snippets, "发件人: ", email.sender.as_str(), query);
        },
    }
    proof {
        reveal_strlit("");
        assert(""@ =~= Seq::<char>::empty());
        let e = email.content();
        assert(Seq::<Seq<char>>::empty() + labelled(Seq::empty(), e.subject, query@) =~= labelled(
            Seq::empty(),
            e.subject,
            query@,
        ));
        assert(Seq::<Seq<char>>::empty() + labelled(Seq::empty(), e.body, query@) =~= labelled(
            Seq::empty(),
            e.body,
            query@,
        ));
        assert(Seq::<Seq<char>>::empty() + labelled(Seq::empty(), e.sender, query@) =~= labelled(
            Seq::empty(),
            e.sender,
            query@,
        ));
        assert(Seq::<Seq<char>>::empty() + labelled(Seq::empty(), e.recipient, query@)
            =~= labelled(Seq::empty(), e.recipient, query@));
        assert(Seq::<Seq<char>>::empty() + labelled("主题: "@, e.subject, query@) =~= labelled(
            "主题: "@,
            e.subject,
            query@,
        ));
    }
    snippets
}

/// The highlights of the records for `query`.
pub fn generate_highlights(emails: &Vec<Email>, query: &str, field: SearchField) -> (highlights:
    Vec<Highlight>)
    ensures
        highlight_views(highlights@) == highlights_of(emails@, query@, field),
{
    let mut highlights: Vec<Highlight> = Vec::new();
    assert(highlight_views(highlights@) =~= Seq::<(Seq<char>, Seq<Seq<char>>)>::empty());
    if query.is_empty() {
        return highlights;
    }
    let mut i: usize = 0;
    assert(emails@.take(0) =~= Seq::<Email>::empty());
    while i < emails.len()
        invariant
            i <= emails.len(),
            query@.len() > 0,
            highlight_views(highlights@) == highlights_of(emails@.take(i as int), query@, field),
        decreases emails.len() - i,
    {
        proof {
            let upto = emails@.take(i + 1);
            assert(upto.drop_last() =~= emails@.take(i as int));
            assert(upto.last() == emails@[i as int]);
        }
        let snippets = snippets_for(&emails[i], query, field);
        if snippets.len() > 0 {
            let ghost before = highlights@;
            let entry = Highlight { email_id: emails[i].id.clone(), snippets };
            highlights.push(entry);
            assert(highlight_views(highlights@) =~= highlight_views(before).push(
                (entry.email_id@, texts_of(entry.snippets@)),
            ));
        }
        i += 1;
    }
    assert(emails@.take(emails.len() as int) =~= emails@);
    highlights
}

/// The first of the saved searches with the identifier `id`.
pub open spec fn saved_with(saved: Seq<SavedSearch>, id: Seq<char>) -> Option<SavedSearch>
    decreases saved.len(),
{
    if saved.len() == 0 {
        None
    } else if saved[0].id@ == id {
        Some(saved[0])
    } else {
        saved_with(saved.drop_first(), id)
    }
}

/// The saved searches with another identifier than `id`.
pub open spec fn other_than(id: Seq<char>) -> spec_fn(SavedSearch) -> bool {
    |s: SavedSearch| s.id@ != id
}

impl SearchService {
    /// A service without saved searches.
    pub fn new() -> (service: SearchService)
        ensures
            service.saved_searches@.len() == 0,
    {
        SearchService { saved_searches: Vec::new() }
    }

    /// The records that hold `query` in subject, body, sender or recipient,
    /// letter case aside.
    pub fn full_text_search(&self, emails: &Vec<Email>, query: &str) -> (found: Vec<Email>)
        ensures
            found@ == emails@.filter(holding(query@)),
    {
        let q = query.to_lowercase();
        let mut keep: Vec<bool> = Vec::new();
        let mut i: usize = 0;
        while i < emails.len()
            invariant
                i <= emails.len(),
                q@ == lowercase(query@),
                keep@.len() == i,
                forall|k: int| 0 <= k < i ==> keep@[k] == holding(query@)(emails@[k]),
            decreases emails.len() - i,
        {
            let e = &emails[i];
            let hit = lowercase_contains(e.subject.as_str(), q.as_str()) || lowercase_contains(
                e.body.as_str(),
                q.as_str(),
            ) || lowercase_contains(e.sender.as_str(), q.as_str()) || lowercase_contains(
                e.recipient.as_str(),
                q.as_str(),
            );
            keep.push(hit);
            i += 1;
        }
        pick(emails, &keep, Ghost(holding(query@)))
    }

    /// The records in whose field the regular expression matches.
    pub fn regex_search(&self, emails: &Vec<Email>, pattern: &str, field: SearchField) -> (r:
        Result<Vec<Email>, SearchError>)
        ensures
            r is Ok <==> pattern_compiles(pattern@),
            r matches Ok(found) ==> found@ == emails@.filter(matching(field, pattern@)),
            r matches Err(e) ==> e is InvalidPattern,
    {
        let compiled = match Pattern::compile(pattern) {
            Ok(compiled) => compiled,
            Err(e) => {
                return Err(SearchError::InvalidPattern(refusal_text(&e)));
            },
        };
        Ok(Self::select_matching(emails, &compiled, field))
    }

    fn select_matching(emails: &Vec<Email>, pattern: &Pattern, field: SearchField) -> (found: Vec<
        Email,
    >)
        ensures
            found@ == emails@.filter(matching(field, pattern@)),
    {
        let mut keep: Vec<bool> = Vec::new();
        let mut i: usize = 0;
        while i < emails.len()
            invariant
                i <= emails.len(),
                keep@.len() == i,
                forall|k: int| 0 <= k < i ==> keep@[k] == matching(field, pattern@)(emails@[k]),
            decreases emails.len() - i,
        {
            keep.push(pattern_hits_email(&emails[i], field, pattern));
            i += 1;
        }
        pick(emails, &keep, Ghost(matching(field, pattern@)))
    }

    /// The records that the criteria select, with their highlights. A
    /// regular expression that is refused gives no result.
    pub fn advanced_search(&self, emails: &Vec<Email>, criteria: &AdvancedSearchCriteria) -> (r:
        Result<SearchResult, SearchError>)
        ensures
            r is Err <==> criteria.refused(),
            r matches Err(e) ==> e is InvalidPattern,
            r matches Ok(result) ==> {
                &&& result.emails@ == emails@.filter(selected_by(*criteria))
                &&& result.total_count == result.emails@.len()
                &&& result.search_time_ms == 0
                &&& highlight_views(result.highlights@) == highlights_of(
                    result.emails@,
                    criteria.query@,
                    criteria.field,
                )
            },
    {
        let asked = !criteria.query.as_str().is_empty();
        let mut pattern: Option<Pattern> = None;
        let mut q = String::new();
        if asked && criteria.use_regex {
            let source = if criteria.case_sensitive {
                criteria.query.clone()
            } else {
                let mut source = String::from_str("(?i)");
                source.append(criteria.query.as_str());
                source
            };
            match Pattern::compile(source.as_str()) {
                Ok(compiled) => {
                    pattern = Some(compiled);
                },
                Err(e) => {
                    return Err(SearchError::InvalidPattern(refusal_text(&e)));
                },
            }
        } else if asked {
            q =
            if criteria.case_sensitive {
                criteria.query.clone()
            } else {
                criteria.query.as_str().to_lowercase()
            };
        }
        let mut keep: Vec<bool> = Vec::new();
        let mut i: usize = 0;
        while i < emails.len()
            invariant
                i <= emails.len(),
                asked == (criteria.query@.len() > 0),
                pattern is Some ==> asked && criteria.use_regex,
                asked && criteria.use_regex ==> pattern is Some && pattern->0@ == pattern_of(
                    criteria.query@,
                    criteria.case_sensitive,
                ),
                asked && !criteria.use_regex ==> q@ == folded(
                    criteria.query@,
                    criteria.case_sensitive,
                ),
                keep@.len() == i,
                forall|k: int| 0 <= k < i ==> keep@[k] == selected_by(*criteria)(emails@[k]),
            decreases emails.len() - i,
        {
            let e = &emails[i];
            let mut hit = criteria.filter.matches(e);
            if hit && asked {
                hit =
                match &pattern {
                    Some(compiled) => pattern_hits_email(e, criteria.field, compiled),
                    None => text_hits_email(e, criteria.field, q.as_str(), criteria.case_sensitive),
                };
            }
            keep.push(hit);
            i += 1;
        }
        let found = pick(emails, &keep, Ghost(selected_by(*criteria)));
        let highlights = generate_highlights(&found, criteria.query.as_str(), criteria.field);
        let total_count = found.len();
        Ok(SearchResult { emails: found, total_count, search_time_ms: 0, highlights })
    }

    /// Saves the criteria under `name` and returns the identifier of the
    /// saved search, which is new and stands last.
    pub fn save_search(&mut self, name: String, criteria: AdvancedSearchCriteria) -> (id: String)
        ensures
            final(self).saved_searches@.len() == old(self).saved_searches@.len() + 1,
            final(self).saved_searches@.drop_last() == old(self).saved_searches@,
            final(self).saved_searches@.last().id == id,
            final(self).saved_searches@.last().name == name,
            final(self).saved_searches@.last().criteria == criteria,
            final(self).saved_searches@.last().created_at.wf(),
            id@.len() == ID_LENGTH,
    {
        let id = fresh_id();
        let saved = SavedSearch { id: id.clone(), name, criteria, created_at: now() };
        let ghost before = self.saved_searches@;
        self.saved_searches.push(saved);
        assert(self.saved_searches@.drop_last() =~= before);
        id
    }

    /// The saved searches, in the order in which they were saved.
    pub fn get_saved_searches(&self) -> (saved: Vec<SavedSearch>)
        ensures
            saved@ == self.saved_searches@,
    {
        let mut saved: Vec<SavedSearch> = Vec::new();
        let mut i: usize = 0;
        while i < self.saved_searches.len()
            invariant
                i <= self.saved_searches.len(),
                saved@ == self.saved_searches@.take(i as int),
            decreases self.saved_searches.len() - i,
        {
            saved.push(self.saved_searches[i].duplicate());
            i += 1;
            assert(self.saved_searches@.take(i as int) =~= self.saved_searches@.take(i - 1).push(
                self.saved_searches@[i - 1],
            ));
        }
        assert(self.saved_searches@.take(self.saved_searches.len() as int)
            =~= self.saved_searches@);
        saved
    }

    /// Forgets the saved searches with the identifier `id`.
    pub fn delete_saved_search(&mut self, id: &str)
        ensures
            final(self).saved_searches@ == old(self).saved_searches@.filter(other_than(id@)),
    {
        let mut kept: Vec<SavedSearch> = Vec::new();
        let mut i: usize = 0;
        proof {
            assert(self.saved_searches@.take(0) =~= Seq::<SavedSearch>::empty());
            reveal(Seq::filter);
        }
        while i < self.saved_searches.len()
            invariant
                i <= self.saved_searches.len(),
                self.saved_searches@ == old(self).saved_searches@,
                kept@ == self.saved_searches@.take(i as int).filter(other_than(id@)),
            decreases self.saved_searches.len() - i,
        {
            proof {
                let all = self.saved_searches@;
                assert(all.take(i + 1) =~= all.take(i as int).push(all[i as int]));
                all.take(i as int).lemma_filter_push(all[i as int], other_than(id@));
            }
            if !same_text(self.saved_searches[i].id.as_str(), id) {
                kept.push(self.saved_searches[i].duplicate());
            }
            i += 1;
        }
        assert(self.saved_searches@.take(self.saved_searches.len() as int)
            =~= self.saved_searches@);
        self.saved_searches = kept;
    }

    /// Searches with the criteria saved under the identifier `id`.
    pub fn execute_saved_search(&self, emails: &Vec<Email>, id: &str) -> (r: Result<
        SearchResult,
        SearchError,
    >)
        ensures
            match saved_with(self.saved_searches@, id@) {
                None => r == Err::<SearchResult, SearchError>(SearchError::NotFound),
                Some(saved) => {
                    &&& r is Err <==> saved.criteria.refused()
                    &&& r matches Err(e) ==> e is InvalidPattern
                    &&& r matches Ok(result) ==> {
                        &&& result.emails@ == emails@.filter(selected_by(saved.criteria))
                        &&& result.total_count == result.emails@.len()
                        &&& result.search_time_ms == 0
                        &&& highlight_views(result.highlights@) == highlights_of(
                            result.emails@,
                            saved.criteria.query@,
                            saved.criteria.field,
                        )
                    }
                },
            },
    {
        let mut i: usize = 0;
        assert(self.saved_searches@.skip(0) =~= self.saved_searches@);
        while i < self.saved_searches.len()
            invariant
                i <= self.saved_searches.len(),
                saved_with(self.saved_searches@, id@) == saved_with(
                    self.saved_searches@.skip(i as int),
                    id@,
                ),
            decreases self.saved_searches.len() - i,
        {
            let ghost rest = self.saved_searches@.skip(i as int);
            assert(rest[0] == self.saved_searches@[i as int]);
            assert(rest.drop_first() =~= self.saved_searches@.skip(i + 1));
            if same_text(self.saved_searches[i].id.as_str(), id) {
                return self.advanced_search(emails, &self.saved_searches[i].criteria);
            }
            i += 1;
        }
        Err(SearchError::NotFound)
    }

    /// Rebuilds the search index. The search reads the records as they are
    /// and keeps no index, so nothing is done.
    pub fn rebuild_index(&self) {
    }
}

/// The number of suggestions that are offered, at most.
pub const MAX_SUGGESTIONS: usize = 10;

/// Whether `text` begins with `partial`, letter case aside.
pub open spec fn begins(text: Seq<char>, partial: Seq<char>) -> bool {
    lowercase(partial).is_prefix_of(lowercase(text))
}

/// The words that complete `partial`: they begin with it, letter case
/// aside, and take more bytes than it.
pub open spec fn completing(partial: Seq<char>) -> spec_fn(Seq<char>) -> bool {
    |word: Seq<char>|
        begins(word, partial) && vstd::utf8::encode_utf8(word).len() > vstd::utf8::encode_utf8(
            partial,
        ).len()
}

/// `text`, where it begins with `partial`.
pub open spec fn offered(text: Seq<char>, partial: Seq<char>) -> Seq<Seq<char>> {
    if begins(text, partial) {
        seq![text]
    } else {
        Seq::empty()
    }
}

/// What one record suggests for `partial`: the words of its subject that
/// complete it, and its sender and its category where they begin with it.
pub open spec fn suggestions_in(e: EmailContent, partial: Seq<char>) -> Seq<Seq<char>> {
    words_of(e.subject).filter(completing(partial)) + offered(e.sender, partial) + offered(
        e.category,
        partial,
    )
}

/// What the records suggest for `partial`.
pub open spec fn suggestions_among(emails: Seq<Email>, partial: Seq<char>) -> Seq<Seq<char>>
    decreases emails.len(),
{
    if emails.len() == 0 {
        Seq::empty()
    } else {
        suggestions_among(emails.drop_last(), partial) + suggestions_in(
            emails.last().content(),
            partial,
        )
    }
}

/// Each text comes before those after it.
pub open spec fn is_sorted(texts: Seq<Seq<char>>) -> bool {
    forall|i: int, j: int| 0 <= i < j < texts.len() ==> text_before(texts[i], texts[j])
}

/// Whether `sorted` holds the texts of `items`, each once, in the order of
/// texts.
pub open spec fn is_sorted_set_of(sorted: Seq<Seq<char>>, items: Seq<Seq<char>>) -> bool {
    &&& is_sorted(sorted)
    &&& forall|t: Seq<char>| sorted.contains(t) <==> items.contains(t)
}

/// Whether `text` begins with `lower`, once in lower case.
fn begins_with(text: &str, lower: &Vec<char>) -> (r: bool)
    ensures
        r == lower@.is_prefix_of(lowercase(text@)),
{
    let folded = text.to_lowercase();
    let chars = chars_of(folded.as_str());
    assert(chars@.subrange(0, chars.len() as int) =~= chars@);
    starts_with(&chars, 0, chars.len(), lower)
}

/// Appends `text` where it begins with `partial`.
fn offer(out: &mut Vec<String>, text: &String, partial: Ghost<Seq<char>>, lower: &Vec<char>)
    requires
        lower@ == lowercase(partial@),
    ensures
        texts_of(final(out)@) == texts_of(old(out)@) + offered(text@, partial@),
{
    if begins_with(text.as_str(), lower) {
        let ghost before = out@;
        out.push(text.clone());
        assert(texts_of(out@) =~= texts_of(before) + offered(text@, partial@));
    } else {
        assert(texts_of(out@) =~= texts_of(out@) + offered(text@, partial@));
    }
}

/// What one record suggests.
fn suggestions_for(email: &Email, partial: &str, lower: &Vec<char>) -> (out: Vec<String>)
    requires
        lower@ == lowercase(partial@),
    ensures
        texts_of(out@) == suggestions_in(email.content(), partial@),
{
    let chars = chars_of(email.subject.as_str());
    let ranges = split_words(&chars);
    let ghost words = words_of(email.subject@);
    let threshold = partial.as_bytes().len();
    let mut out: Vec<String> = Vec::new();
    let mut i: usize = 0;
    proof {
        assert(words.take(0) =~= Seq::<Seq<char>>::empty());
        reveal(Seq::filter);
        assert(texts_of(out@) =~= Seq::<Seq<char>>::empty());
    }
    while i < ranges.len()
        invariant
            i <= ranges.len(),
            chars@ == email.subject@,
            words == words_of(email.subject@),
            ranges_within(ranges@, chars@.len()),
            slices_of(chars@, ranges@) == words,
            lower@ == lowercase(partial@),
            threshold == vstd::utf8::encode_utf8(partial@).len(),
            texts_of(out@) == words.take(i as int).filter(completing(partial@)),
        decreases ranges.len() - i,
    {
        let (a, b) = ranges[i];
        let word = string_of(&chars, a, b);
        proof {
            assert(words[i as int] == word@);
            assert(words.take(i + 1) =~= words.take(i as int).push(word@));
            words.take(i as int).lemma_filter_push(word@, completing(partial@));
        }
        if begins_with(word.as_str(), lower) && word.as_str().as_bytes().len() > threshold {
            let ghost before = out@;
            out.push(word);
            assert(texts_of(out@) =~= texts_of(before).push(word@));
        }
        i += 1;
    }
    assert(words.take(ranges.len() as int) =~= words);
    offer(&mut out, &email.sender, Ghost(partial@), lower);
    offer(&mut out, &email.category, Ghost(partial@), lower);
    out
}

/// Puts `item` in its place among the sorted texts, unless it is there.
fn insert_sorted(sorted: &mut Vec<String>, item: String)
    requires
        is_sorted(texts_of(old(sorted)@)),
    ensures
        is_sorted(texts_of(final(sorted)@)),
        forall|t: Seq<char>|
            texts_of(final(sorted)@).contains(t) <==> (texts_of(old(sorted)@).contains(t) || t
                == item@),
{
    let x = chars_of(item.as_str());
    let ghost before = texts_of(sorted@);
    let mut at: usize = 0;
    while at < sorted.len() && precedes(&chars_of(sorted[at].as_str()), &x)
        invariant
            at <= sorted.len(),
            x@ == item@,
            texts_of(sorted@) == before,
            forall|k: int| 0 <= k < at ==> text_before(before[k], item@),
        decreases sorted.len() - at,
    {
        assert(before[at as int] == sorted@[at as int]@);
        at += 1;
    }
    if at < sorted.len() && same_text(sorted[at].as_str(), item.as_str()) {
        assert(before[at as int] == item@);
        assert(before.contains(item@));
        return ;
    }
    proof {
        if at < before.len() {
            assert(before[at as int] == sorted@[at as int]@);
            lemma_text_order(before[at as int], item@);
        }
    }
    sorted.insert(at, item);
    proof {
        let after = texts_of(sorted@);
        assert(after =~= before.insert(at as int, item@));
        assert forall|i: int, j: int| 0 <= i < j < after.len() implies text_before(
            after[i],
            after[j],
        ) by {
            if j < at {
                assert(after[i] == before[i] && after[j] == before[j]);
            } else if j == at {
                assert(after[i] == before[i]);
            } else if i < at {
                assert(after[i] == before[i] && after[j] == before[j - 1]);
            } else if i == at {
                assert(after[j] == before[j - 1]);
                if j - 1 > at {
                    assert(text_before(before[at as int], before[j - 1]));
                    lemma_text_order_transitive(item@, before[at as int], before[j - 1]);
                }
            } else {
                assert(after[i] == before[i - 1] && after[j] == before[j - 1]);
            }
        }
        assert forall|t: Seq<char>| after.contains(t) <==> (before.contains(t) || t
            == item@) by {
            if after.contains(t) {
                let k = choose|k: int| 0 <= k < after.len() && after[k] == t;
                if k < at {
                    assert(before[k] == t);
                } else if k > at {
                    assert(before[k - 1] == t);
                }
            }
            if before.contains(t) {
                let k = choose|k: int| 0 <= k < before.len() && before[k] == t;
                if k < at {
                    assert(after[k] == t);
                } else {
                    assert(after[k + 1] == t);
                }
            }
            if t == item@ {
                assert(after[at as int] == t);
            }
        }
    }
}

/// Membership in a sequence that grew by some items.
proof fn lemma_contains_add(a: Seq<Seq<char>>, b: Seq<Seq<char>>, t: Seq<char>)
    ensures
        (a + b).contains(t) <==> a.contains(t) || b.contains(t),
{
    if (a + b).contains(t) {
        let k = choose|k: int| 0 <= k < (a + b).len() && (a + b)[k] == t;
        if k < a.len() {
            assert(a[k] == t);
        } else {
            assert(b[k - a.len()] == t);
        }
    }
    if a.contains(t) {
        let k = choose|k: int| 0 <= k < a.len() && a[k] == t;
        assert((a + b)[k] == t);
    }
    if b.contains(t) {
        let k = choose|k: int| 0 <= k < b.len() && b[k] == t;
        assert((a + b)[k + a.len()] == t);
    }
}

impl SearchService {
    /// The first ten, in the order of texts, of what the records suggest
    /// for `partial_query`, each suggestion once.
    pub fn get_search_suggestions(&self, emails: &Vec<Email>, partial_query: &str) -> (suggestions:
        Vec<String>)
        ensures
            exists|sorted: Seq<Seq<char>>|
                {
                    &&& #[trigger] is_sorted_set_of(
                        sorted,
                        suggestions_among(emails@, partial_query@),
                    )
                    &&& texts_of(suggestions@) == if sorted.len() > MAX_SUGGESTIONS {
                        sorted.take(MAX_SUGGESTIONS as int)
                    } else {
                        sorted
                    }
                },
    {
        let folded = partial_query.to_lowercase();
        let lower = chars_of(folded.as_str());
        let mut sorted: Vec<String> = Vec::new();
        let mut i: usize = 0;
        proof {
            assert(emails@.take(0) =~= Seq::<Email>::empty());
            assert(texts_of(sorted@) =~= Seq::<Seq<char>>::empty());
        }
        while i < emails.len()
            invariant
                i <= emails.len(),
                lower@ == lowercase(partial_query@),
                is_sorted_set_of(
                    texts_of(sorted@),
                    suggestions_among(emails@.take(i as int), partial_query@),
                ),
            decreases emails.len() - i,
        {
            let found = suggestions_for(&emails[i], partial_query, &lower);
            let ghost done = suggestions_among(emails@.take(i as int), partial_query@);
            let ghost new = texts_of(found@);
            proof {
                let upto = emails@.take(i + 1);
                assert(upto.drop_last() =~= emails@.take(i as int));
                assert(upto.last() == emails@[i as int]);
                assert(suggestions_among(upto, partial_query@) == done + new);
            }
            let mut k: usize = 0;
            assert(new.take(0) =~= Seq::<Seq<char>>::empty());
            proof {
                assert forall|t: Seq<char>|
                    texts_of(sorted@).contains(t) <==> (done + new.take(0)).contains(t) by {
                    lemma_contains_add(done, new.take(0), t);
                }
            }
            while k < found.len()
                invariant
                    k <= found.len(),
                    new == texts_of(found@),
                    is_sorted_set_of(texts_of(sorted@), done + new.take(k as int)),
                decreases found.len() - k,
            {
                let ghost had = texts_of(sorted@);
                insert_sorted(&mut sorted, found[k].clone());
                proof {
                    let x = new[k as int];
                    assert(found@[k as int]@ == x);
                    assert(new.take(k + 1) =~= new.take(k as int).push(x));
                    assert forall|t: Seq<char>|
                        texts_of(sorted@).contains(t) <==> (done + new.take(k + 1)).contains(
                            t,
                        ) by {
                        lemma_contains_add(done, new.take(k as int), t);
                        lemma_contains_add(done, new.take(k + 1), t);
                        lemma_contains_add(new.take(k as int), seq![x], t);
                        assert(new.take(k as int).push(x) =~= new.take(k as int) + seq![x]);
                        if seq![x].contains(t) {
                            assert(t == x);
                        }
                        if t == x {
                            assert(seq![x][0] == t);
                        }
                    }
                }
                k += 1;
            }
            assert(new.take(found.len() as int) =~= new);
            i += 1;
        }
        assert(emails@.take(emails.len() as int) =~= emails@);
        let ghost whole = texts_of(sorted@);
        sorted.truncate(MAX_SUGGESTIONS);
        proof {
            if whole.len() > MAX_SUGGESTIONS {
                assert(texts_of(sorted@) =~= whole.take(MAX_SUGGESTIONS as int));
            } else {
                assert(texts_of(sorted@) =~= whole);
            }
            assert(is_sorted_set_of(whole, suggestions_among(emails@, partial_query@)));
        }
        sorted
    }

    /// Figures about the records: how many there are, and how many
    /// different senders and categories they have.
    pub fn get_search_statistics(&self, emails: &Vec<Email>) -> (stats: Vec<NamedCount>)
        ensures
            stats@.len() == 3,
            stats@[0].name@ == "total_emails"@,
            stats@[0].count == emails@.len(),
            stats@[1].name@ == "unique_senders"@,
            stats@[1].count == distinct(emails@.map_values(|e: Email| e.sender@)).len(),
            stats@[2].name@ == "unique_categories"@,
            stats@[2].count == distinct(emails@.map_values(|e: Email| e.category@)).len(),
    {
        let mut senders: Vec<String> = Vec::new();
        let mut categories: Vec<String> = Vec::new();
        let mut i: usize = 0;
        while i < emails.len()
            invariant
                i <= emails.len(),
                senders@.len() == i,
                categories@.len() == i,
                forall|k: int| 0 <= k < i ==> senders@[k]@ == emails@[k].sender@,
                forall|k: int| 0 <= k < i ==> categories@[k]@ == emails@[k].category@,
            decreases emails.len() - i,
        {
            senders.push(emails[i].sender.clone());
            categories.push(emails[i].category.clone());
            i += 1;
        }
        assert(senders@.map_values(|s: String| s@) =~= emails@.map_values(|e: Email| e.sender@));
        assert(categories@.map_values(|s: String| s@) =~= emails@.map_values(
            |e: Email| e.category@,
        ));
        let by_sender = tally(&senders);
        let by_category = tally(&categories);
        let mut stats: Vec<NamedCount> = Vec::new();
        stats.push(NamedCount { name: "total_emails".to_owned(), count: emails.len() });
        stats.push(NamedCount { name: "unique_senders".to_owned(), count: by_sender.len() });
        stats.push(NamedCount { name: "unique_categories".to_owned(), count: by_category.len() });
        stats
    }
}

} // verus!
