//! Categories, and what the stored records say about them: which
//! categories are in use, how many records each holds, and which records a
//! renaming touches.
//!
//! The service works on the records that its caller hands it.

use crate::ids::fresh_id;
use crate::ids::ID_LENGTH;
use crate::models::email::Email;
use crate::models::email::EmailContent;
use crate::models::email::pick;
use crate::services::email_service::NamedCount;
use crate::services::tally::distinct;
use crate::services::tally::is_ranking;
use crate::services::tally::is_tally;
use crate::services::tally::lemma_distinct;
use crate::services::tally::occurrences;
use crate::services::tally::rank;
use crate::services::tally::tally;
use crate::text::same_text;
use crate::time::now;
use crate::time::Timestamp;
use vstd::prelude::*;

verus! {

/// A category, which may stand under another.
#[derive(Debug, Clone)]
pub struct Category {
    pub id: String,
    pub name: String,
    pub parent_id: Option<String>,
    pub color: Option<String>,
    pub description: Option<String>,
    pub created_at: Timestamp,
    pub updated_at: Timestamp,
}

/// A category with the number of its records and the categories under it.
#[derive(Debug)]
pub struct CategoryNode {
    pub category: Category,
    pub children: Vec<CategoryNode>,
    pub email_count: usize,
}

/// The categories in use, as a tree.
#[derive(Debug)]
pub struct CategoryTree {
    pub categories: Vec<CategoryNode>,
}

/// The service for categories.
#[derive(Debug, Clone)]
pub struct CategoryService {}

/// The name of the category of records that are not filed.
pub open spec fn unfiled() -> Seq<char> {
    "未分类"@
}

/// The categories of the records, in their order.
pub open spec fn categories_of(emails: Seq<Email>) -> Seq<Seq<char>> {
    emails.map_values(|e: Email| e.category@)
}

/// The records in the category `name`.
pub open spec fn in_category(name: Seq<char>) -> spec_fn(Email) -> bool {
    |e: Email| e.category@ == name
}

/// The records without a category, or in the category for unfiled records.
pub open spec fn uncategorized() -> spec_fn(Email) -> bool {
    |e: Email| e.category@.len() == 0 || e.category@ == unfiled()
}

/// The records from `sender` that have a category.
pub open spec fn filed_from(sender: Seq<char>) -> spec_fn(Email) -> bool {
    |e: Email| e.sender@ == sender && e.category@.len() > 0
}

/// The texts, as the contracts speak of them.
pub open spec fn names_of(names: Seq<String>) -> Seq<Seq<char>> {
    names.map_values(|s: String| s@)
}

/// The categories of the records.
fn category_names(emails: &Vec<Email>) -> (names: Vec<String>)
    ensures
        names_of(names@) == categories_of(emails@),
{
    let mut names: Vec<String> = Vec::new();
    let mut i: usize = 0;
    while i < emails.len()
        invariant
            i <= emails.len(),
            names@.len() == i,
            forall|k: int| 0 <= k < i ==> names@[k]@ == emails@[k].category@,
        decreases emails.len() - i,
    {
        names.push(emails[i].category.clone());
        i += 1;
    }
    assert(names_of(names@) =~= categories_of(emails@));
    names
}

impl Category {
    /// A new category without colour and description, created and last
    /// updated at the present moment.
    pub fn new(name: String, parent_id: Option<String>) -> (category: Category)
        ensures
            category.name == name,
            category.parent_id == parent_id,
            category.color is None,
            category.description is None,
            category.id@.len() == ID_LENGTH,
            category.created_at == category.updated_at,
            category.created_at.wf(),
    {
        let at = now();
        Category {
            id: fresh_id(),
            name,
            parent_id,
            color: None,
            description: None,
            created_at: at,
            updated_at: at,
        }
    }

    /// Gives the category a colour and stamps the update.
    pub fn set_color(&mut self, color: String)
        ensures
            final(self).color == Some(color),
            final(self).id == old(self).id,
            final(self).name == old(self).name,
            final(self).parent_id == old(self).parent_id,
            final(self).description == old(self).description,
            final(self).created_at == old(self).created_at,
            final(self).updated_at.wf(),
    {
        self.color = Some(color);
        self.updated_at = now();
    }

    /// Gives the category a description and stamps the update.
    pub fn set_description(&mut self, description: String)
        ensures
            final(self).description == Some(description),
            final(self).id == old(self).id,
            final(self).name == old(self).name,
            final(self).parent_id == old(self).parent_id,
            final(self).color == old(self).color,
            final(self).created_at == old(self).created_at,
            final(self).updated_at.wf(),
    {
        self.description = Some(description);
        self.updated_at = now();
    }
}

impl CategoryService {
    /// The service.
    pub fn new() -> (service: CategoryService) {
        CategoryService {  }
    }

    /// The identifier of a new category.
    pub fn create_category(&self, name: String, parent_id: Option<String>) -> (id: String)
        ensures
            id@.len() == ID_LENGTH,
    {
        Category::new(name, parent_id).id
    }

    /// The number of records in each category in use.
    pub fn get_category_statistics(&self, emails: &Vec<Email>) -> (counts: Vec<NamedCount>)
        ensures
            is_tally(counts@, categories_of(emails@)),
    {
        let names = category_names(emails);
        tally(&names)
    }

    /// The categories in use: one new category for each, in the order in
    /// which they first appear among the records.
    pub fn get_all_categories(&self, emails: &Vec<Email>) -> (categories: Vec<Category>)
        ensures
            categories@.len() == distinct(categories_of(emails@)).len(),
            forall|i: int|
                0 <= i < categories@.len() ==> {
                    &&& (#[trigger] categories@[i]).name@ == distinct(categories_of(emails@))[i]
                    &&& categories@[i].parent_id is None
                    &&& categories@[i].color is None
                    &&& categories@[i].description is None
                    &&& categories@[i].id@.len() == ID_LENGTH
                },
    {
        let counts = self.get_category_statistics(emails);
        let mut categories: Vec<Category> = Vec::new();
        let mut i: usize = 0;
        while i < counts.len()
            invariant
                i <= counts.len(),
                categories@.len() == i,
                is_tally(counts@, categories_of(emails@)),
                forall|k: int|
                    0 <= k < i ==> {
                        &&& (#[trigger] categories@[k]).name@ == distinct(
                            categories_of(emails@),
                        )[k]
                        &&& categories@[k].parent_id is None
                        &&& categories@[k].color is None
                        &&& categories@[k].description is None
                        &&& categories@[k].id@.len() == ID_LENGTH
                    },
            decreases counts.len() - i,
        {
            assert(counts@[i as int].name@ == distinct(categories_of(emails@))[i as int]);
            categories.push(Category::new(counts[i].name.clone(), None));
            i += 1;
        }
        categories
    }

    /// The categories in use with the number of their records, as a tree
    /// without depth.
    pub fn get_category_tree(&self, emails: &Vec<Email>) -> (tree: CategoryTree)
        ensures
            tree.categories@.len() == distinct(categories_of(emails@)).len(),
            forall|i: int|
                0 <= i < tree.categories@.len() ==> {
                    &&& (#[trigger] tree.categories@[i]).category.name@ == distinct(
                        categories_of(emails@),
                    )[i]
                    &&& tree.categories@[i].email_count == occurrences(
                        categories_of(emails@),
                        distinct(categories_of(emails@))[i],
                    )
                    &&& tree.categories@[i].children@.len() == 0
                    &&& tree.categories@[i].category.parent_id is None
                },
    {
        let counts = self.get_category_statistics(emails);
        let mut nodes: Vec<CategoryNode> = Vec::new();
        let mut i: usize = 0;
        while i < counts.len()
            invariant
                i <= counts.len(),
                nodes@.len() == i,
                is_tally(counts@, categories_of(emails@)),
                forall|k: int|
                    0 <= k < i ==> {
                        &&& (#[trigger] nodes@[k]).category.name@ == distinct(
                            categories_of(emails@),
                        )[k]
                        &&& nodes@[k].email_count == occurrences(
                            categories_of(emails@),
                            distinct(categories_of(emails@))[k],
                        )
                        &&& nodes@[k].children@.len() == 0
                        &&& nodes@[k].category.parent_id is None
                    },
            decreases counts.len() - i,
        {
            assert(counts@[i as int].name@ == distinct(categories_of(emails@))[i as int]);
            nodes.push(
                CategoryNode {
                    category: Category::new(counts[i].name.clone(), None),
                    children: Vec::new(),
                    email_count: counts[i].count,
                },
            );
            i += 1;
        }
        CategoryTree { categories: nodes }
    }

    /// The records of the category `from`, refiled under `to` and stamped:
    /// what is to be stored again.
    fn refiled(emails: &Vec<Email>, from: &str, to: &str) -> (changed: Vec<Email>)
        ensures
            changed@.len() == emails@.filter(in_category(from@)).len(),
            forall|i: int|
                0 <= i < changed@.len() ==> {
                    let was = emails@.filter(in_category(from@))[i];
                    &&& (#[trigger] changed@[i]).content() == (EmailContent {
                        category: to@,
                        ..was.content()
                    })
                    &&& changed@[i].id == was.id
                    &&& changed@[i].created_at == was.created_at
                    &&& changed@[i].updated_at.wf()
                },
    {
        let mut keep: Vec<bool> = Vec::new();
        let mut i: usize = 0;
        while i < emails.len()
            invariant
                i <= emails.len(),
                keep@.len() == i,
                forall|k: int| 0 <= k < i ==> keep@[k] == in_category(from@)(emails@[k]),
            decreases emails.len() - i,
        {
            keep.push(same_text(emails[i].category.as_str(), from));
            i += 1;
        }
        let mut changed = pick(emails, &keep, Ghost(in_category(from@)));
        let ghost affected = changed@;
        let mut k: usize = 0;
        while k < changed.len()
            invariant
                k <= changed.len(),
                changed@.len() == affected.len(),
                forall|j: int| k <= j < changed@.len() ==> changed@[j] == affected[j],
                forall|j: int|
                    0 <= j < k ==> {
                        &&& (#[trigger] changed@[j]).content() == (EmailContent {
                            category: to@,
                            ..affected[j].content()
                        })
                        &&& changed@[j].id == affected[j].id
                        &&& changed@[j].created_at == affected[j].created_at
                        &&& changed@[j].updated_at.wf()
                    },
            decreases changed.len() - k,
        {
            let mut email = changed[k].duplicate();
            email.update_category(to.to_owned());
            changed[k] = email;
            k += 1;
        }
        changed
    }

    /// The records that renaming the category `old_name` to `new_name`
    /// changes, as they are afterwards.
    pub fn rename_category(&self, emails: &Vec<Email>, old_name: &str, new_name: String) -> (changed:
        Vec<Email>)
        ensures
            changed@.len() == emails@.filter(in_category(old_name@)).len(),
            forall|i: int|
                0 <= i < changed@.len() ==> {
                    let was = emails@.filter(in_category(old_name@))[i];
                    &&& (#[trigger] changed@[i]).content() == (EmailContent {
                        category: new_name@,
                        ..was.content()
                    })
                    &&& changed@[i].id == was.id
                    &&& changed@[i].created_at == was.created_at
                    &&& changed@[i].updated_at.wf()
                },
    {
        Self::refiled(emails, old_name, new_name.as_str())
    }

    /// The records that merging the category `source_category` into
    /// `target_category` changes, as they are afterwards.
    pub fn merge_categories(
        &self,
        emails: &Vec<Email>,
        source_category: &str,
        target_category: &str,
    ) -> (changed: Vec<Email>)
        ensures
            changed@.len() == emails@.filter(in_category(source_category@)).len(),
            forall|i: int|
                0 <= i < changed@.len() ==> {
                    let was = emails@.filter(in_category(source_category@))[i];
                    &&& (#[trigger] changed@[i]).content() == (EmailContent {
                        category: target_category@,
                        ..was.content()
                    })
                    &&& changed@[i].id == was.id
                    &&& changed@[i].created_at == was.created_at
                    &&& changed@[i].updated_at.wf()
                },
    {
        Self::refiled(emails, source_category, target_category)
    }

    /// The number of records without a category, or in the category for
    /// unfiled records.
    pub fn get_uncategorized_count(&self, emails: &Vec<Email>) -> (count: usize)
        ensures
            count == emails@.filter(uncategorized()).len(),
    {
        let mut count: usize = 0;
        let mut i: usize = 0;
        proof {
            assert(emails@.take(0) =~= Seq::<Email>::empty());
            reveal(Seq::filter);
        }
        while i < emails.len()
            invariant
                i <= emails.len(),
                count <= i,
                count == emails@.take(i as int).filter(uncategorized()).len(),
            decreases emails.len() - i,
        {
            proof {
                assert(emails@.take(i + 1) =~= emails@.take(i as int).push(emails@[i as int]));
                emails@.take(i as int).lemma_filter_push(emails@[i as int], uncategorized());
            }
            let category = emails[i].category.as_str();
            if category.is_empty() || same_text(category, "未分类") {
                count += 1;
            }
            i += 1;
        }
        assert(emails@.take(emails.len() as int) =~= emails@);
        count
    }

    /// The category under which most of the records from `sender` are
    /// filed; none where no record from the sender has a category.
    pub fn suggest_category_by_sender(&self, emails: &Vec<Email>, sender: &str) -> (suggestion:
        Option<String>)
        ensures
            ({
                let names = categories_of(emails@.filter(filed_from(sender@)));
                match suggestion {
                    None => names.len() == 0,
                    Some(category) => names.contains(category@) && forall|name: Seq<char>|
                        #[trigger] occurrences(names, name) <= occurrences(names, category@),
                }
            }),
    {
        let mut keep: Vec<bool> = Vec::new();
        let mut i: usize = 0;
        while i < emails.len()
            invariant
                i <= emails.len(),
                keep@.len() == i,
                forall|k: int| 0 <= k < i ==> keep@[k] == filed_from(sender@)(emails@[k]),
            decreases emails.len() - i,
        {
            let e = &emails[i];
            keep.push(same_text(e.sender.as_str(), sender) && !e.category.as_str().is_empty());
            i += 1;
        }
        let filed = pick(emails, &keep, Ghost(filed_from(sender@)));
        let counts = self.get_category_statistics(&filed);
        let ghost names = categories_of(filed@);
        proof {
            lemma_distinct(names);
        }
        if counts.len() == 0 {
            proof {
                if names.len() > 0 {
                    assert(names.contains(names[0]));
                    assert(distinct(names).contains(names[0]));
                }
            }
            return None;
        }
        let mut best: usize = 0;
        let mut j: usize = 1;
        while j < counts.len()
            invariant
                1 <= j <= counts.len(),
                best < j,
                forall|k: int| 0 <= k < j ==> counts@[k].count <= counts@[best as int].count,
            decreases counts.len() - j,
        {
            if counts[j].count > counts[best].count {
                best = j;
            }
            j += 1;
        }
        let category = counts[best].name.clone();
        proof {
            assert(counts@[best as int].name@ == distinct(names)[best as int]);
            assert(distinct(names).contains(category@));
            assert forall|name: Seq<char>| #[trigger]
                occurrences(names, name) <= occurrences(names, category@) by {
                if names.contains(name) {
                    assert(distinct(names).contains(name));
                    let k = choose|k: int| 0 <= k < distinct(names).len() && distinct(names)[k]
                        == name;
                    assert(counts@[k].count == occurrences(names, name));
                }
            }
        }
        Some(category)
    }

    /// The `limit` categories with the most records, the greater counts
    /// first.
    pub fn get_popular_categories(&self, emails: &Vec<Email>, limit: usize) -> (popular: Vec<
        NamedCount,
    >)
        ensures
            exists|counts: Seq<NamedCount>, ranked: Seq<NamedCount>|
                {
                    &&& is_tally(counts, categories_of(emails@))
                    &&& #[trigger] is_ranking(ranked, counts)
                    &&& popular@ == if limit < ranked.len() {
                        ranked.take(limit as int)
                    } else {
                        ranked
                    }
                },
    {
        let counts = self.get_category_statistics(emails);
        let mut ranked = rank(&counts);
        let ghost whole = ranked@;
        ranked.truncate(limit);
        proof {
            assert(is_ranking(whole, counts@));
            if limit < whole.len() {
                assert(ranked@ =~= whole.take(limit as int));
            } else {
                assert(ranked@ =~= whole);
            }
        }
        ranked
    }
}

} // verus!
