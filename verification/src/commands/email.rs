//! The decisions of the commands on records.

use crate::models::email::Email;
use crate::models::email::EmailContent;
use crate::models::email::EmailFilter;
use crate::time::now;
use vstd::prelude::*;

verus! {

/// The filter that a search command asks for: the keyword and the category
/// as given; unread records only, or important ones only, where that is
/// asked for with `true`.
pub fn search_filter(
    keyword: Option<String>,
    category: Option<String>,
    unread_only: Option<bool>,
    important_only: Option<bool>,
) -> (filter: EmailFilter)
    ensures
        filter == (EmailFilter {
            sender: None,
            recipient: None,
            category,
            is_read: if unread_only == Some(true) {
                Some(false)
            } else {
                None
            },
            is_important: if important_only == Some(true) {
                Some(true)
            } else {
                None
            },
            keyword,
        }),
{
    let mut filter = EmailFilter::new();
    if let Some(kw) = keyword {
        filter = filter.keyword(kw);
    }
    if let Some(cat) = category {
        filter = filter.category(cat);
    }
    if let Some(true) = unread_only {
        filter = filter.unread_only();
    }
    if let Some(true) = important_only {
        filter = filter.important_only();
    }
    filter
}

/// Turns the mark of importance over and stamps the update.
pub fn toggle_important(email: &mut Email)
    ensures
        final(email).content() == (EmailContent {
            is_important: !old(email).is_important,
            ..old(email).content()
        }),
        final(email).id == old(email).id,
        final(email).created_at == old(email).created_at,
        final(email).updated_at.wf(),
{
    email.is_important = !email.is_important;
    email.updated_at = now();
}

} // verus!
