//! The title index: for each identifier the titles it is known by, in the
//! order in which they were added.

use vstd::prelude::*;
use vstd::hash_map::StringHashMap;

verus! {

/// What a title index stands for: a map from identifier to titles.
pub type Titles = Map<Seq<char>, Seq<Seq<char>>>;

/// What a sequence of strings stands for.
pub open spec fn texts(strings: Seq<String>) -> Seq<Seq<char>> {
    strings.map_values(|s: String| s@)
}

/// Every identifier of the index has a title.
pub open spec fn all_titled(index: Titles) -> bool {
    forall|id: Seq<char>| index.contains_key(id) ==> (#[trigger] index[id]).len() > 0
}

/// The index after `title` was added for `id`: the title follows those the
/// identifier already has, or is its first.
pub open spec fn with_title(index: Titles, id: Seq<char>, title: Seq<char>) -> Titles {
    index.insert(
        id,
        if index.contains_key(id) {
            index[id].push(title)
        } else {
            seq![title]
        },
    )
}

/// Titles by identifier. An identifier may have several titles, such as the
/// names of a film in different countries; each identifier in the index has
/// at least one.
pub struct TitleIndex {
    entries: StringHashMap<Vec<String>>,
}

impl View for TitleIndex {
    type V = Titles;

    closed spec fn view(&self) -> Titles {
        self.entries@.map_values(|titles: Vec<String>| texts(titles@))
    }
}

/// A copy of the titles.
fn copy_titles(titles: &Vec<String>) -> (copy: Vec<String>)
    ensures
        copy@ == titles@,
{
    let mut copy: Vec<String> = Vec::new();
    let mut i: usize = 0;
    while i < titles.len()
        invariant
            i <= titles.len(),
            copy@ == titles@.take(i as int),
        decreases titles.len() - i,
    {
        copy.push(titles[i].clone());
        i += 1;
    }
    copy
}

impl TitleIndex {
    #[verifier::type_invariant]
    spec fn every_entry_titled(self) -> bool {
        forall|id: Seq<char>|
            self.entries@.contains_key(id) ==> (#[trigger] self.entries@[id]).len() > 0
    }

    /// An index without titles.
    pub fn new() -> (index: TitleIndex)
        ensures
            index@ == Map::<Seq<char>, Seq<Seq<char>>>::empty(),
            all_titled(index@),
    {
        TitleIndex { entries: StringHashMap::new() }
    }

    /// Adds `title` for `id`, after the titles that `id` already has.
    pub fn add(&mut self, id: String, title: String)
        ensures
            final(self)@ == with_title(old(self)@, id@, title@),
            all_titled(final(self)@),
    {
        proof {
            use_type_invariant(&*self);
        }
        let mut titles = match self.entries.get(id.as_str()) {
            Some(known) => copy_titles(known),
            None => Vec::new(),
        };
        let ghost known = texts(titles@);
        titles.push(title);
        assert(texts(titles@) =~= known.push(title@));
        assert(known.push(title@) =~= if old(self)@.contains_key(id@) {
            old(self)@[id@].push(title@)
        } else {
            seq![title@]
        });
        let mut entries = StringHashMap::new();
        core::mem::swap(&mut self.entries, &mut entries);
        entries.insert(id, titles);
        core::mem::swap(&mut self.entries, &mut entries);
    }

    /// The titles of `id`, first added first, where the index knows `id`.
    pub fn titles(&self, id: &str) -> (found: Option<&Vec<String>>)
        ensures
            match found {
                Some(titles) => self@.contains_key(id@) && texts(titles@) == self@[id@]
                    && titles.len() > 0,
                None => !self@.contains_key(id@),
            },
    {
        proof {
            use_type_invariant(self);
        }
        self.entries.get(id)
    }

    /// The title that was added first for `id`, where the index knows `id`.
    pub fn first_title(&self, id: &str) -> (found: Option<&str>)
        ensures
            match found {
                Some(title) => self@.contains_key(id@) && self@[id@].len() > 0 && title@
                    == self@[id@][0],
                None => !self@.contains_key(id@),
            },
    {
        match self.titles(id) {
            Some(titles) => Some(titles[0].as_str()),
            None => None,
        }
    }

    /// Whether the index knows `id`.
    pub fn contains(&self, id: &str) -> (known: bool)
        ensures
            known == self@.contains_key(id@),
    {
        self.entries.contains_key(id)
    }

    /// The number of identifiers in the index.
    pub fn len(&self) -> (n: usize)
        ensures
            n == self@.dom().len(),
    {
        broadcast use vstd::hash_map::group_hash_map_axioms;

        assert(self@.dom() =~= self.entries@.dom());
        self.entries.len()
    }
}

} // verus!
