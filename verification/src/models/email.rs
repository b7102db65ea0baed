//! Mail records and the filter that selects among them.

use crate::ids::fresh_id;
use crate::ids::ID_LENGTH;
use crate::text::chars_of;
use crate::text::contains;
use crate::text::contains_text;
use crate::text::lowercase;
use crate::text::same_text;
use crate::time::now;
use crate::time::Timestamp;
use vstd::prelude::*;

verus! {

/// One message as the application keeps it.
#[derive(Debug, Clone)]
pub struct Email {
    pub id: String,
    pub sender: String,
    pub recipient: String,
    pub subject: String,
    pub body: String,
    pub category: String,
    pub is_read: bool,
    pub is_important: bool,
    pub created_at: Timestamp,
    pub updated_at: Timestamp,
}

/// What a record says, apart from its identifier and its timestamps.
pub struct EmailContent {
    pub sender: Seq<char>,
    pub recipient: Seq<char>,
    pub subject: Seq<char>,
    pub body: Seq<char>,
    pub category: Seq<char>,
    pub is_read: bool,
    pub is_important: bool,
}

/// A record as it stands: its identifier, what it says, and its timestamps.
pub struct EmailRecord {
    pub id: Seq<char>,
    pub content: EmailContent,
    pub created_at: Timestamp,
    pub updated_at: Timestamp,
}

/// The records as they stand, in their order.
pub open spec fn records_of(records: Seq<Email>) -> Seq<EmailRecord> {
    records.map_values(|e: Email| e.record())
}

/// The contents of the records, in their order.
pub open spec fn contents_of(records: Seq<Email>) -> Seq<EmailContent> {
    records.map_values(|e: Email| e.content())
}

impl Email {
    /// The record as it stands.
    pub open spec fn record(&self) -> EmailRecord {
        EmailRecord {
            id: self.id@,
            content: self.content(),
            created_at: self.created_at,
            updated_at: self.updated_at,
        }
    }

    /// Whether the record is as it leaves its constructor: with an
    /// identifier of full length, and never updated.
    pub open spec fn is_fresh(&self) -> bool {
        &&& self.id@.len() == ID_LENGTH
        &&& self.created_at == self.updated_at
        &&& self.created_at.wf()
    }

    /// The record's content.
    pub open spec fn content(&self) -> EmailContent {
        EmailContent {
            sender: self.sender@,
            recipient: self.recipient@,
            subject: self.subject@,
            body: self.body@,
            category: self.category@,
            is_read: self.is_read,
            is_important: self.is_important,
        }
    }

    /// A new, unread and unmarked record with a fresh identifier, created and
    /// last updated at the present moment.
    pub fn new(
        sender: String,
        recipient: String,
        subject: String,
        body: String,
        category: String,
    ) -> (email: Email)
        ensures
            email.content() == (EmailContent {
                sender: sender@,
                recipient: recipient@,
                subject: subject@,
                body: body@,
                category: category@,
                is_read: false,
                is_important: false,
            }),
            email.id@.len() == ID_LENGTH,
            email.created_at == email.updated_at,
            email.created_at.wf(),
    {
        let at = now();
        Email {
            id: fresh_id(),
            sender,
            recipient,
            subject,
            body,
            category,
            is_read: false,
            is_important: false,
            created_at: at,
            updated_at: at,
        }
    }

    /// Marks the record as read and stamps the update.
    pub fn mark_as_read(&mut self)
        ensures
            final(self).content() == (EmailContent { is_read: true, ..old(self).content() }),
            final(self).id == old(self).id,
            final(self).created_at == old(self).created_at,
            final(self).updated_at.wf(),
    {
        self.is_read = true;
        self.updated_at = now();
    }

    /// Marks the record as important and stamps the update.
    pub fn mark_as_important(&mut self)
        ensures
            final(self).content() == (EmailContent { is_important: true, ..old(self).content() }),
            final(self).id == old(self).id,
            final(self).created_at == old(self).created_at,
            final(self).updated_at.wf(),
    {
        self.is_important = true;
        self.updated_at = now();
    }

    /// Files the record under `category` and stamps the update.
    pub fn update_category(&mut self, category: String)
        ensures
            final(self).content() == (EmailContent { category: category@, ..old(self).content() }),
            final(self).id == old(self).id,
            final(self).created_at == old(self).created_at,
            final(self).updated_at.wf(),
    {
        self.category = category;
        self.updated_at = now();
    }
}

/// Whether `needle` is a contiguous part of `hay`.
pub fn text_contains(hay: &str, needle: &str) -> (r: bool)
    ensures
        r == contains_text(hay@, needle@),
{
    let hay_chars = chars_of(hay);
    let needle_chars = chars_of(needle);
    contains(&hay_chars, &needle_chars)
}

/// Whether the lower-case form of `hay` holds `needle`.
pub fn lowercase_contains(hay: &str, needle: &str) -> (r: bool)
    ensures
        r == contains_text(lowercase(hay@), needle@),
{
    let lower = hay.to_lowercase();
    text_contains(lower.as_str(), needle)
}

/// A selection of records. Each criterion that is set must hold.
#[derive(Debug, Clone)]
pub struct EmailFilter {
    pub sender: Option<String>,
    pub recipient: Option<String>,
    pub category: Option<String>,
    pub is_read: Option<bool>,
    pub is_important: Option<bool>,
    pub keyword: Option<String>,
}

impl Default for EmailFilter {
    /// The filter that accepts every record.
    fn default() -> (filter: EmailFilter)
        ensures
            filter.is_empty(),
    {
        EmailFilter {
            sender: None,
            recipient: None,
            category: None,
            is_read: None,
            is_important: None,
            keyword: None,
        }
    }
}

/// Whether some field of the record holds the keyword, letter case aside.
pub open spec fn keyword_found(e: EmailContent, keyword: Seq<char>) -> bool {
    let k = lowercase(keyword);
    ||| contains_text(lowercase(e.subject), k)
    ||| contains_text(lowercase(e.body), k)
    ||| contains_text(lowercase(e.sender), k)
    ||| contains_text(lowercase(e.recipient), k)
}

impl EmailFilter {
    /// No criterion is set.
    pub open spec fn is_empty(&self) -> bool {
        &&& self.sender is None
        &&& self.recipient is None
        &&& self.category is None
        &&& self.is_read is None
        &&& self.is_important is None
        &&& self.keyword is None
    }

    /// Whether the filter accepts a record with this content: the sender and
    /// the recipient hold the texts asked for, the category is the one asked
    /// for, the two marks are as asked for, and the keyword stands in the
    /// subject, the body, the sender or the recipient, letter case aside.
    pub open spec fn accepts(&self, e: EmailContent) -> bool {
        &&& self.sender matches Some(s) ==> contains_text(e.sender, s@)
        &&& self.recipient matches Some(r) ==> contains_text(e.recipient, r@)
        &&& self.category matches Some(c) ==> e.category == c@
        &&& self.is_read matches Some(b) ==> e.is_read == b
        &&& self.is_important matches Some(b) ==> e.is_important == b
        &&& self.keyword matches Some(k) ==> keyword_found(e, k@)
    }

    /// The filter that accepts every record.
    pub fn new() -> (filter: EmailFilter)
        ensures
            filter.is_empty(),
    {
        EmailFilter {
            sender: None,
            recipient: None,
            category: None,
            is_read: None,
            is_important: None,
            keyword: None,
        }
    }

    /// The filter that also asks for `category`.
    pub fn category(self, category: String) -> (filter: EmailFilter)
        ensures
            filter == (EmailFilter { category: Some(category), ..self }),
    {
        let mut filter = self;
        filter.category = Some(category);
        filter
    }

    /// The filter that also asks for `keyword`.
    pub fn keyword(self, keyword: String) -> (filter: EmailFilter)
        ensures
            filter == (EmailFilter { keyword: Some(keyword), ..self }),
    {
        let mut filter = self;
        filter.keyword = Some(keyword);
        filter
    }

    /// The filter that also asks for unread records.
    pub fn unread_only(self) -> (filter: EmailFilter)
        ensures
            filter == (EmailFilter { is_read: Some(false), ..self }),
    {
        let mut filter = self;
        filter.is_read = Some(false);
        filter
    }

    /// The filter that also asks for records marked as important.
    pub fn important_only(self) -> (filter: EmailFilter)
        ensures
            filter == (EmailFilter { is_important: Some(true), ..self }),
    {
        let mut filter = self;
        filter.is_important = Some(true);
        filter
    }

    /// Whether the filter accepts `email`.
    pub fn matches(&self, email: &Email) -> (r: bool)
        ensures
            r == self.accepts(email.content()),
    {
        if let Some(sender) = &self.sender {
            if !text_contains(email.sender.as_str(), sender.as_str()) {
                return false;
            }
        }
        if let Some(recipient) = &self.recipient {
            if !text_contains(email.recipient.as_str(), recipient.as_str()) {
                return false;
            }
        }
        if let Some(category) = &self.category {
            if !same_text(email.category.as_str(), category.as_str()) {
                return false;
            }
        }
        if let Some(is_read) = self.is_read {
            if email.is_read != is_read {
                return false;
            }
        }
        if let Some(is_important) = self.is_important {
            if email.is_important != is_important {
                return false;
            }
        }
        if let Some(keyword) = &self.keyword {
            let k = keyword.as_str().to_lowercase();
            if !lowercase_contains(email.subject.as_str(), k.as_str()) && !lowercase_contains(
                email.body.as_str(),
                k.as_str(),
            ) && !lowercase_contains(email.sender.as_str(), k.as_str()) && !lowercase_contains(
                email.recipient.as_str(),
                k.as_str(),
            ) {
                return false;
            }
        }
        true
    }
}

/// The filter without criteria accepts every record.
pub proof fn law_empty_filter(filter: EmailFilter, e: EmailContent)
    requires
        filter.is_empty(),
    ensures
        filter.accepts(e),
{
}

impl Email {
    /// A copy of the record.
    pub fn duplicate(&self) -> (copy: Email)
        ensures
            copy == *self,
    {
        Email {
            id: self.id.clone(),
            sender: self.sender.clone(),
            recipient: self.recipient.clone(),
            subject: self.subject.clone(),
            body: self.body.clone(),
            category: self.category.clone(),
            is_read: self.is_read,
            is_important: self.is_important,
            created_at: self.created_at,
            updated_at: self.updated_at,
        }
    }
}

/// A copy of an optional text.
pub fn duplicate_text(text: &Option<String>) -> (copy: Option<String>)
    ensures
        copy == *text,
{
    match text {
        Some(s) => Some(s.clone()),
        None => None,
    }
}

impl EmailFilter {
    /// A copy of the filter.
    pub fn duplicate(&self) -> (copy: EmailFilter)
        ensures
            copy == *self,
    {
        EmailFilter {
            sender: duplicate_text(&self.sender),
            recipient: duplicate_text(&self.recipient),
            category: duplicate_text(&self.category),
            is_read: self.is_read,
            is_important: self.is_important,
            keyword: duplicate_text(&self.keyword),
        }
    }
}

/// The records among `emails` whose flag in `keep` is set, in their order.
pub(crate) fn pick(emails: &Vec<Email>, keep: &Vec<bool>, Ghost(wanted): Ghost<spec_fn(Email) -> bool>) -> (picked:
    Vec<Email>)
    requires
        keep@.len() == emails@.len(),
        forall|i: int| 0 <= i < emails@.len() ==> keep@[i] == wanted(emails@[i]),
    ensures
        picked@ == emails@.filter(wanted),
{
    let mut picked: Vec<Email> = Vec::new();
    let mut i: usize = 0;
    proof {
        assert(emails@.take(0) =~= Seq::<Email>::empty());
        reveal(Seq::filter);
    }
    while i < emails.len()
        invariant
            i <= emails.len(),
            keep@.len() == emails@.len(),
            forall|k: int| 0 <= k < emails@.len() ==> keep@[k] == wanted(emails@[k]),
            picked@ == emails@.take(i as int).filter(wanted),
        decreases emails.len() - i,
    {
        proof {
            assert(emails@.take(i + 1) =~= emails@.take(i as int).push(emails@[i as int]));
            emails@.take(i as int).lemma_filter_push(emails@[i as int], wanted);
        }
        if keep[i] {
            picked.push(emails[i].duplicate());
        }
        i += 1;
    }
    assert(emails@.take(emails.len() as int) =~= emails@);
    picked
}

} // verus!
