//! Where an attachment goes on the tablet, and under what name.
use vstd::prelude::*;

use crate::keymap::KeyMap;
use crate::text;
use crate::zotero::{Collection, CollectionView, CreatorView, Item, ItemView};

verus! {

/// The most bytes that a name may take.
pub const NAME_LIMIT: usize = 128;

/// The name of a document on the tablet and the folders that lead to it.
#[derive(Debug, PartialEq, Eq)]
pub struct ItemPlacement {
    pub name: String,
    pub folder_path: Vec<String>,
}

/// What an [`ItemPlacement`] holds.
pub struct ItemPlacementView {
    pub name: Seq<char>,
    pub folder_path: Seq<Seq<char>>,
}

impl DeepView for ItemPlacement {
    type V = ItemPlacementView;

    open spec fn deep_view(&self) -> ItemPlacementView {
        ItemPlacementView { name: self.name@, folder_path: self.folder_path.deep_view() }
    }
}

/// The punctuation that a name cannot hold.
pub open spec fn is_forbidden(c: char) -> bool {
    c == '/' || c == '\\' || c == ':' || c == '*' || c == '?' || c == '"' || c == '<' || c == '>'
        || c == '|'
}

/// A character as it may stand in a name.
pub open spec fn cleaned(c: char) -> char {
    if is_forbidden(c) || text::is_control_char(c) {
        ' '
    } else {
        c
    }
}

/// A text with a blank for each character that a name cannot hold.
pub open spec fn cleaned_text(s: Seq<char>) -> Seq<char> {
    s.map_values(|c: char| cleaned(c))
}

/// The words of the cleaned text with one blank between each two.
pub open spec fn spaced(s: Seq<char>) -> Seq<char> {
    text::joined(text::words(cleaned_text(s)), " "@)
}

/// A text as a name: cleaned, evenly spaced and cut to the limit.
pub open spec fn sanitized(s: Seq<char>) -> Seq<char> {
    text::prefix_within(spaced(s), NAME_LIMIT as int)
}

/// Whether four digits stand at `i`.
pub open spec fn four_digits_at(s: Seq<char>, i: int) -> bool {
    &&& 0 <= i
    &&& i + 4 <= s.len()
    &&& text::is_digit(s[i])
    &&& text::is_digit(s[i + 1])
    &&& text::is_digit(s[i + 2])
    &&& text::is_digit(s[i + 3])
}

/// The first four digits in a row.
pub open spec fn year_in(s: Seq<char>) -> Option<Seq<char>>
    decreases s.len(),
{
    if s.len() < 4 {
        None
    } else if four_digits_at(s, 0) {
        Some(s.take(4))
    } else {
        year_in(s.drop_first())
    }
}

/// Whether `key` names no collection of the library.
pub open spec fn is_outside(
    collections: Map<Seq<char>, CollectionView>,
    key: Option<Seq<char>>,
) -> bool {
    match key {
        Some(k) => !collections.contains_key(k),
        None => true,
    }
}

/// Whether the way from `key` to the parent and on leaves the collections within `steps` steps.
pub open spec fn ends_within(
    collections: Map<Seq<char>, CollectionView>,
    key: Option<Seq<char>>,
    steps: nat,
) -> bool
    decreases steps,
{
    if is_outside(collections, key) {
        true
    } else if steps == 0 {
        false
    } else {
        ends_within(collections, collections[key->0].data.parent_collection, (steps - 1) as nat)
    }
}

/// The names on the way from `key` to the parent and on, the outermost first.
pub open spec fn climb(
    collections: Map<Seq<char>, CollectionView>,
    key: Option<Seq<char>>,
    steps: nat,
) -> Seq<Seq<char>>
    decreases steps,
{
    if is_outside(collections, key) || steps == 0 {
        Seq::empty()
    } else {
        climb(
            collections,
            collections[key->0].data.parent_collection,
            (steps - 1) as nat,
        ).push(sanitized(collections[key->0].data.name))
    }
}

/// The first collection that an item is filed under.
pub open spec fn first_collection(item: ItemView) -> Option<Seq<char>> {
    if item.data.collections.len() > 0 {
        Some(item.data.collections[0])
    } else {
        None
    }
}

/// Whether the collections round an item lead out of the library, and not back to themselves.
pub open spec fn chain_ends(
    item: ItemView,
    collections: Map<Seq<char>, CollectionView>,
) -> bool {
    ends_within(collections, first_collection(item), collections.len())
}

/// The folders round an item, the outermost first.
pub open spec fn folders_of(
    item: ItemView,
    collections: Map<Seq<char>, CollectionView>,
) -> Seq<Seq<char>> {
    climb(collections, first_collection(item), collections.len())
}

/// The names of the contributors that have one: the last name, or else the single name.
pub open spec fn author_names(creators: Seq<CreatorView>) -> Seq<Seq<char>>
    decreases creators.len(),
{
    if creators.len() == 0 {
        Seq::empty()
    } else {
        let before = author_names(creators.drop_last());
        match (creators.last().last_name, creators.last().name) {
            (Some(n), _) => before.push(n),
            (None, Some(n)) => before.push(n),
            (None, None) => before,
        }
    }
}

/// How the contributors are named: one or two in full, more by the first alone.
pub open spec fn author_part(names: Seq<Seq<char>>) -> Seq<Seq<char>> {
    if names.len() == 0 {
        Seq::empty()
    } else if names.len() == 1 {
        seq![names[0]]
    } else if names.len() == 2 {
        seq![names[0] + " & "@ + names[1]]
    } else {
        seq![names[0] + " et al."@]
    }
}

/// The value as a sequence of one, or nothing.
pub open spec fn at_most_one(part: Option<Seq<char>>) -> Seq<Seq<char>> {
    match part {
        Some(p) => seq![p],
        None => Seq::empty(),
    }
}

/// The year of a publication.
pub open spec fn year_part(item: ItemView) -> Seq<Seq<char>> {
    match item.data.date {
        Some(date) => at_most_one(year_in(date)),
        None => Seq::empty(),
    }
}

/// The title of a publication, unless it is empty.
pub open spec fn title_part(item: ItemView) -> Seq<Seq<char>> {
    match item.data.title {
        Some(title) => if title.len() > 0 {
            seq![title]
        } else {
            Seq::empty()
        },
        None => Seq::empty(),
    }
}

/// What a publication is named by: its authors, its year and its title, as far as it has them.
pub open spec fn name_parts(parent: ItemView) -> Seq<Seq<char>> {
    author_part(author_names(parent.data.creators)) + year_part(parent) + title_part(parent)
}

/// What an attachment is named by where nothing better is known: its file name, or else its title,
/// or else its key, without the ending of a PDF file.
pub open spec fn fallback_name(item: ItemView) -> Seq<char> {
    let base = match (item.data.filename, item.data.title) {
        (Some(filename), _) => filename,
        (None, Some(title)) => title,
        (None, None) => item.key,
    };
    sanitized(text::without_tails(text::without_tails(base, ".pdf"@), ".PDF"@))
}

/// Where an attachment goes, given the publication that it belongs to where that is known.
pub open spec fn placement_of(
    item: ItemView,
    parent: Option<ItemView>,
    collections: Map<Seq<char>, CollectionView>,
) -> ItemPlacementView {
    match parent {
        None => ItemPlacementView { name: fallback_name(item), folder_path: Seq::empty() },
        Some(p) => ItemPlacementView {
            name: if name_parts(p).len() == 0 {
                fallback_name(item)
            } else {
                sanitized(text::joined(name_parts(p), " - "@))
            },
            folder_path: folders_of(p, collections),
        },
    }
}

/// A name without what a tablet's file system cannot hold: each forbidden or control character
/// counts as a blank, blanks are joined, and the name is cut to [`NAME_LIMIT`] bytes.
pub fn sanitize(name: &str) -> (r: String)
    ensures
        r@ == sanitized(name@),
{
    let mut clean: String = String::new();
    for c in it: name.chars()
        invariant
            clean@ == cleaned_text(it.seq().take(it.index())),
            it.seq() == name@,
    {
        let blank: bool = c == '/' || c == '\\' || c == ':' || c == '*' || c == '?' || c == '"' || c
            == '<' || c == '>' || c == '|' || text::is_control(c);
        clean.push(if blank {
            ' '
        } else {
            c
        });
        assert(it.seq().take(it.index() + 1) == it.seq().take(it.index()).push(c));
    }
    assert(name@.take(name@.len() as int) == name@);
    let words: Vec<String> = text::split_whitespace(clean.as_str());
    let out: String = text::join(&words, " ");
    text::truncate_to(out.as_str(), NAME_LIMIT)
}

/// First run of four consecutive digits, e.g. "2023" from "2023-05-01".
pub fn extract_year(date: &str) -> (r: Option<String>)
    ensures
        r.deep_view() == year_in(date@),
{
    let chars: Vec<char> = text::chars_of(date);
    let mut run: usize = 0;
    let mut i: usize = 0;
    assert(chars@.skip(0) =~= date@);
    while i < chars.len()
        invariant
            run <= i <= chars@.len(),
            run < 4,
            forall|k: int| i - run <= k < i ==> text::is_digit(#[trigger] chars@[k]),
            year_in(date@) == year_in(chars@.skip(i - run)),
        decreases chars@.len() - i,
    {
        let ghost from = i - run;
        let ghost rest = chars@.skip(from);
        if text::is_ascii_digit(chars[i]) {
            run += 1;
            if run == 4 {
                assert(rest[0] == chars@[from] && rest[1] == chars@[from + 1] && rest[2]
                    == chars@[from + 2] && rest[3] == chars@[from + 3]);
                assert(four_digits_at(rest, 0));
                assert(rest.take(4) =~= chars@.subrange(from, i + 1));
                return Some(text::text_of(&chars, i - 3, i + 1));
            }
        } else {
            proof {
                lemma_no_year_across(chars@, from, i as int);
            }
            run = 0;
        }
        i += 1;
    }
    proof {
        assert(chars@.skip(i - run).len() < 4);
    }
    None
}

/// Where a character that is no digit stands within four places, no year starts before it.
proof fn lemma_no_year_across(s: Seq<char>, from: int, at: int)
    requires
        0 <= from <= at < s.len(),
        at - from < 4,
        !text::is_digit(s[at]),
    ensures
        year_in(s.skip(from)) == year_in(s.skip(at + 1)),
    decreases at - from,
{
    let rest = s.skip(from);
    assert(rest[at - from] == s[at]);
    assert(!four_digits_at(rest, 0));
    assert(rest.drop_first() =~= s.skip(from + 1));
    if rest.len() < 4 {
        assert(s.skip(at + 1).len() < 4);
    } else if from < at {
        lemma_no_year_across(s, from + 1, at);
    }
}

/// Whether [`collection_path`] has an end to reach: false where the collections round the item lead
/// back to themselves.
pub fn collection_path_ends(parent: &Item, collections_by_key: &KeyMap<Collection>) -> (r: bool)
    ensures
        r == chain_ends(parent.deep_view(), collections_by_key.deep_view()),
{
    let ghost m = collections_by_key.deep_view();
    let mut current: Option<String> = first_key(parent);
    let mut left: usize = collections_by_key.len();
    while left > 0
        invariant
            m == collections_by_key.deep_view(),
            chain_ends(parent.deep_view(), m) == ends_within(m, current.deep_view(), left as nat),
        decreases left,
    {
        match &current {
            None => {
                return true;
            },
            Some(key) => {
                match collections_by_key.get(key.as_str()) {
                    None => {
                        return true;
                    },
                    Some(collection) => {
                        let above: Option<String> = collection.data.parent_collection.clone();
                        current = above;
                    },
                }
            },
        }
        left -= 1;
    }
    match &current {
        None => true,
        Some(key) => !collections_by_key.contains_key(key.as_str()),
    }
}

fn first_key(parent: &Item) -> (r: Option<String>)
    ensures
        r.deep_view() == first_collection(parent.deep_view()),
{
    if parent.data.collections.len() > 0 {
        Some(parent.data.collections[0].clone())
    } else {
        None
    }
}

/// The names of the folders from the outermost collection down to the first one that the item is
/// filed under.
pub fn collection_path(parent: &Item, collections_by_key: &KeyMap<Collection>) -> (r: Vec<String>)
    requires
        chain_ends(parent.deep_view(), collections_by_key.deep_view()),
    ensures
        r.deep_view() == folders_of(parent.deep_view(), collections_by_key.deep_view()),
{
    let ghost m = collections_by_key.deep_view();
    let ghost want = folders_of(parent.deep_view(), m);
    let ghost mut left: nat = m.len();
    let mut current: Option<String> = first_key(parent);
    let mut path: Vec<String> = Vec::new();
    assert(climb(m, current.deep_view(), left) + path.deep_view().reverse() =~= want);
    loop
        invariant
            m == collections_by_key.deep_view(),
            ends_within(m, current.deep_view(), left),
            climb(m, current.deep_view(), left) + path.deep_view().reverse() == want,
        ensures
            path.deep_view().reverse() == want,
        decreases left,
    {
        let ghost before = path.deep_view();
        match &current {
            None => {
                assert(climb(m, current.deep_view(), left) + before.reverse() =~= before.reverse());
                break;
            },
            Some(key) => {
                match collections_by_key.get(key.as_str()) {
                    None => {
                        assert(climb(m, current.deep_view(), left) + before.reverse()
                            =~= before.reverse());
                        break;
                    },
                    Some(collection) => {
                        let name: String = sanitize(collection.data.name.as_str());
                        path.push(name);
                        let above: Option<String> = collection.data.parent_collection.clone();
                        proof {
                            assert(path.deep_view() =~= before.push(name@));
                            assert(climb(m, above.deep_view(), (left - 1) as nat).push(name@)
                                + before.reverse() =~= climb(
                                m,
                                above.deep_view(),
                                (left - 1) as nat,
                            ) + path.deep_view().reverse());
                            left = (left - 1) as nat;
                        }
                        current = above;
                    },
                }
            },
        }
    }
    reversed(path)
}

fn reversed(v: Vec<String>) -> (r: Vec<String>)
    ensures
        r.deep_view() == v.deep_view().reverse(),
{
    let ghost all = v.deep_view();
    let mut rest: Vec<String> = v;
    let mut out: Vec<String> = Vec::new();
    while rest.len() > 0
        invariant
            rest@.len() + out@.len() == all.len(),
            rest.deep_view() == all.take(rest@.len() as int),
            out.deep_view() == all.reverse().take(out@.len() as int),
        decreases rest@.len(),
    {
        let ghost was = rest.deep_view();
        match rest.pop() {
            Some(last) => {
                assert(last@ == was.last());
                out.push(last);
            },
            None => {},
        }
        assert(rest.deep_view() =~= all.take(rest@.len() as int));
        assert(out.deep_view() =~= all.reverse().take(out@.len() as int));
    }
    assert(all.reverse().take(out@.len() as int) =~= all.reverse());
    out
}

fn creator_names(parent: &Item) -> (r: Vec<String>)
    ensures
        r.deep_view() == author_names(parent.deep_view().data.creators),
{
    let ghost all = parent.data.creators.deep_view();
    let mut names: Vec<String> = Vec::new();
    let mut i: usize = 0;
    assert(names.deep_view() =~= author_names(all.take(0)));
    while i < parent.data.creators.len()
        invariant
            i <= parent.data.creators@.len(),
            all == parent.data.creators.deep_view(),
            names.deep_view() == author_names(all.take(i as int)),
        decreases parent.data.creators@.len() - i,
    {
        let ghost before = names.deep_view();
        assert(all.take(i + 1).drop_last() =~= all.take(i as int));
        let creator = &parent.data.creators[i];
        assert(all.take(i + 1).last() == creator.deep_view());
        match &creator.last_name {
            Some(n) => {
                names.push(n.clone());
                assert(names.deep_view() =~= before.push(n@));
            },
            None => {
                match &creator.name {
                    Some(n) => {
                        names.push(n.clone());
                        assert(names.deep_view() =~= before.push(n@));
                    },
                    None => {},
                }
            },
        }
        i += 1;
    }
    assert(all.take(i as int) =~= all);
    names
}

fn parts_of(parent: &Item) -> (r: Vec<String>)
    ensures
        r.deep_view() == name_parts(parent.deep_view()),
{
    let names: Vec<String> = creator_names(parent);
    let mut parts: Vec<String> = Vec::new();
    if names.len() == 1 {
        parts.push(names[0].clone());
    } else if names.len() == 2 {
        parts.push(names[0].clone().concat(" & ").concat(names[1].as_str()));
    } else if names.len() > 2 {
        parts.push(names[0].clone().concat(" et al."));
    }
    assert(parts.deep_view() =~= author_part(names.deep_view()));
    let ghost authors = parts.deep_view();
    match &parent.data.date {
        Some(date) => {
            match extract_year(date.as_str()) {
                Some(year) => {
                    parts.push(year);
                },
                None => {},
            }
        },
        None => {},
    }
    assert(parts.deep_view() =~= authors + year_part(parent.deep_view()));
    let ghost dated = parts.deep_view();
    match &parent.data.title {
        Some(title) => {
            if !title.as_str().is_empty() {
                parts.push(title.clone());
            }
        },
        None => {},
    }
    assert(parts.deep_view() =~= dated + title_part(parent.deep_view()));
    parts
}

fn fallback(item: &Item) -> (r: String)
    ensures
        r@ == fallback_name(item.deep_view()),
{
    let base: String = match &item.data.filename {
        Some(filename) => filename.clone(),
        None => match &item.data.title {
            Some(title) => title.clone(),
            None => item.key.clone(),
        },
    };
    let stem: String = text::trim_end_matches(base.as_str(), ".pdf");
    let stem: String = text::trim_end_matches(stem.as_str(), ".PDF");
    sanitize(stem.as_str())
}

/// Where an attachment goes: named by the publication that it belongs to, in the folders that the
/// publication is filed under. Without a known publication it keeps its own name and goes to the
/// top.
pub fn item_placement(
    item: &Item,
    parent: Option<&Item>,
    collections_by_key: &KeyMap<Collection>,
) -> (r: ItemPlacement)
    requires
        parent is Some ==> chain_ends(parent->0.deep_view(), collections_by_key.deep_view()),
    ensures
        r.deep_view() == placement_of(
            item.deep_view(),
            parent.deep_view(),
            collections_by_key.deep_view(),
        ),
{
    match parent {
        None => {
            let folder_path: Vec<String> = Vec::new();
            assert(folder_path.deep_view() =~= Seq::<Seq<char>>::empty());
            ItemPlacement { name: fallback(item), folder_path }
        },
        Some(parent) => {
            let parts: Vec<String> = parts_of(parent);
            let folder_path: Vec<String> = collection_path(parent, collections_by_key);
            let name: String = if parts.len() == 0 {
                fallback(item)
            } else {
                let whole: String = text::join(&parts, " - ");
                sanitize(whole.as_str())
            };
            ItemPlacement { name, folder_path }
        },
    }
}

} // verus!
