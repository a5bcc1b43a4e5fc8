//! What a document is called and where it goes, told by what Zotero says of it.
use vstd::prelude::*;

use crate::name_laws;
use crate::placement;
use crate::text;
use crate::text_laws;
use crate::zotero::{CollectionView, CreatorView, ItemView};

verus! {

/// Whether a character parts the words of a name: one of nine punctuation marks, a control character
/// or whitespace.
pub open spec fn parts_words(c: char) -> bool {
    ||| c == '/'
    ||| c == '\\'
    ||| c == ':'
    ||| c == '*'
    ||| c == '?'
    ||| c == '"'
    ||| c == '<'
    ||| c == '>'
    ||| c == '|'
    ||| c <= '\u{1f}'
    ||| '\u{7f}' <= c <= '\u{9f}'
    ||| text::is_white(c)
}

/// Two texts with one blank between them, or the one of them that is not empty.
pub open spec fn blank_between(a: Seq<char>, b: Seq<char>) -> Seq<char> {
    if a.len() == 0 {
        b
    } else if b.len() == 0 {
        a
    } else {
        a + seq![' '] + b
    }
}

proof fn lemma_words_and_spacing(s: Seq<char>)
    ensures
        placement::spaced(s).len() == 0 <==> text::words(placement::cleaned_text(s)).len() == 0,
{
    let c = placement::cleaned_text(s);
    assert forall|i: int| 0 <= i < c.len() implies #[trigger] placement::cleaned(c[i]) == c[i] by {
        assert(c[i] == placement::cleaned(s[i]));
    }
    name_laws::lemma_words_joined(c);
}

/// A name keeps every character that parts no words, in order, and has one blank wherever one or more
/// that do stood between two of them: a text without any is kept as it is, and two texts with one
/// between them become what each becomes, with one blank between.
pub proof fn names_keep_their_words(a: Seq<char>, c: char, b: Seq<char>)
    requires
        parts_words(c),
    ensures
        (forall|i: int| 0 <= i < a.len() ==> !parts_words(#[trigger] a[i])) ==> placement::spaced(a)
            == a,
        placement::spaced(a + seq![c] + b) == blank_between(
            placement::spaced(a),
            placement::spaced(b),
        ),
{
    reveal_strlit(" ");
    assert(" "@ =~= seq![' ']);
    let ca = placement::cleaned_text(a);
    let cb = placement::cleaned_text(b);
    if forall|i: int| 0 <= i < a.len() ==> !parts_words(#[trigger] a[i]) {
        assert(ca =~= a) by {
            assert forall|i: int| 0 <= i < a.len() implies ca[i] == a[i] by {
                assert(!parts_words(a[i]));
            }
        }
        assert forall|i: int| 0 <= i < ca.len() implies !text::is_white(#[trigger] ca[i]) by {
            assert(!parts_words(a[i]));
        }
        text_laws::whitespace_parts_words(ca, ' ', Seq::empty());
        if a.len() == 0 {
            assert(text::words(ca) =~= Seq::<Seq<char>>::empty());
            assert(placement::spaced(a) =~= a);
        } else {
            assert(text::words(ca) == seq![ca]);
        }
    }
    let space = placement::cleaned(c);
    assert(text::is_white(space));
    let all = a + seq![c] + b;
    assert(placement::cleaned_text(all) =~= ca + seq![space] + cb) by {
        let left = placement::cleaned_text(all);
        assert forall|i: int| 0 <= i < left.len() implies left[i] == (ca + seq![space] + cb)[i] by {
            if i < a.len() {
                assert(all[i] == a[i]);
            } else if i > a.len() {
                assert(all[i] == b[i - a.len() - 1]);
            }
        }
    }
    text_laws::whitespace_parts_words(ca, space, cb);
    lemma_words_and_spacing(a);
    lemma_words_and_spacing(b);
    let wa = text::words(ca);
    let wb = text::words(cb);
    text_laws::joining_goes_part_by_part(wa, wb, " "@);
    if wa.len() == 0 {
        assert(wa + wb =~= wb);
    }
    if wb.len() == 0 {
        assert(wa + wb =~= wa);
    }
}

/// A name is the evenly spaced text where that takes at most 128 bytes of UTF-8, and else the longest
/// part of it from its start on that does.
pub proof fn names_take_128_bytes_at_most(s: Seq<char>, longer: int)
    ensures
        placement::sanitized(s).is_prefix_of(placement::spaced(s)),
        vstd::utf8::encode_utf8(placement::sanitized(s)).len() <= 128,
        vstd::utf8::encode_utf8(placement::spaced(s)).len() <= 128 ==> placement::sanitized(s)
            == placement::spaced(s),
        placement::sanitized(s).len() < longer <= placement::spaced(s).len()
            ==> vstd::utf8::encode_utf8(placement::spaced(s).take(longer)).len() > 128,
{
    let whole = placement::spaced(s);
    name_laws::names_are_cut_late(s);
    text_laws::texts_that_fit_are_not_cut(whole, 128);
    if placement::sanitized(s).len() < longer <= whole.len() {
        text_laws::texts_are_cut_to_the_longest_part_that_fits(whole, 128, longer);
    }
}

/// Whether four ASCII digits stand at `i`.
pub open spec fn has_year_at(s: Seq<char>, i: int) -> bool {
    &&& 0 <= i
    &&& i + 4 <= s.len()
    &&& '0' <= s[i] <= '9' && '0' <= s[i + 1] <= '9' && '0' <= s[i + 2] <= '9' && '0' <= s[i + 3]
        <= '9'
}

/// A date has a year exactly where it has four digits in a row somewhere, and the year is the first
/// four.
pub proof fn dates_have_the_first_year_in_them(s: Seq<char>, i: int)
    ensures
        (forall|j: int| !#[trigger] has_year_at(s, j)) ==> placement::year_in(s) is None,
        has_year_at(s, i) && (forall|j: int| 0 <= j < i ==> !#[trigger] has_year_at(s, j))
            ==> placement::year_in(s) == Some(s.subrange(i, i + 4)),
{
    assert forall|j: int| #[trigger] has_year_at(s, j) == placement::four_digits_at(s, j) by {}
    name_laws::years_are_the_first_four_digits(s);
    if has_year_at(s, i) && (forall|j: int| 0 <= j < i ==> !#[trigger] has_year_at(s, j)) {
        assert(placement::four_digits_at(s, i));
        let year = placement::year_in(s)->0;
        let k = choose|k: int|
            #![trigger placement::four_digits_at(s, k)]
            placement::four_digits_at(s, k) && year == s.subrange(k, k + 4) && forall|j: int|
                0 <= j < k ==> !placement::four_digits_at(s, j);
        assert(has_year_at(s, k));
        if k < i {
            assert(!has_year_at(s, k));
        }
    }
    if forall|j: int| !#[trigger] has_year_at(s, j) {
        if placement::year_in(s) is Some {
            let year = placement::year_in(s)->0;
            let k = choose|k: int|
                #![trigger placement::four_digits_at(s, k)]
                placement::four_digits_at(s, k) && year == s.subrange(k, k + 4);
            assert(!has_year_at(s, k));
        }
    }
}

/// What a contributor is named by: the last name where there is one, else the single name.
pub open spec fn name_of(creator: CreatorView) -> Option<Seq<char>> {
    match creator.last_name {
        Some(last) => Some(last),
        None => creator.name,
    }
}

/// The contributors' names come in the contributors' order, one for each that has one and none for the
/// others.
pub proof fn contributors_are_named_in_order(creators: Seq<CreatorView>, more: Seq<CreatorView>)
    ensures
        placement::author_names(Seq::<CreatorView>::empty()).len() == 0,
        creators.len() == 1 ==> placement::author_names(creators) == match name_of(creators[0]) {
            Some(name) => seq![name],
            None => Seq::empty(),
        },
        placement::author_names(creators + more) == placement::author_names(creators)
            + placement::author_names(more),
    decreases more.len(),
{
    if creators.len() == 1 {
        assert(creators.drop_last() =~= Seq::<CreatorView>::empty());
        assert(placement::author_names(creators.drop_last()) =~= Seq::<Seq<char>>::empty());
        assert(creators.last() == creators[0]);
        match name_of(creators[0]) {
            Some(name) => assert(placement::author_names(creators) =~= seq![name]),
            None => assert(placement::author_names(creators) =~= Seq::<Seq<char>>::empty()),
        }
    }
    if more.len() == 0 {
        assert(creators + more =~= creators);
        assert(placement::author_names(creators) + placement::author_names(more)
            =~= placement::author_names(creators));
    } else {
        assert((creators + more).drop_last() =~= creators + more.drop_last());
        assert((creators + more).last() == more.last());
        contributors_are_named_in_order(creators, more.drop_last());
        assert(placement::author_names(creators + more) =~= placement::author_names(creators)
            + placement::author_names(more));
    }
}

proof fn lemma_first_named(creators: Seq<CreatorView>, i: int)
    requires
        0 <= i < creators.len(),
        name_of(creators[i]) is Some,
        forall|k: int| 0 <= k < i ==> name_of(#[trigger] creators[k]) is None,
    ensures
        placement::author_names(creators) == seq![name_of(creators[i])->0]
            + placement::author_names(creators.skip(i + 1)),
{
    let before = creators.take(i);
    let one = creators.subrange(i, i + 1);
    let rest = creators.skip(i + 1);
    assert forall|k: int| 0 <= k < before.len() implies name_of(#[trigger] before[k]) is None by {
        assert(before[k] == creators[k]);
    }
    lemma_none_named(before);
    contributors_are_named_in_order(before, one + rest);
    contributors_are_named_in_order(one, rest);
    assert(creators =~= before + (one + rest));
    assert(one[0] == creators[i]);
    assert(Seq::<Seq<char>>::empty() + (seq![name_of(creators[i])->0] + placement::author_names(
        rest,
    )) =~= seq![name_of(creators[i])->0] + placement::author_names(rest));
}

proof fn lemma_none_named(creators: Seq<CreatorView>)
    requires
        forall|k: int| 0 <= k < creators.len() ==> name_of(#[trigger] creators[k]) is None,
    ensures
        placement::author_names(creators) == Seq::<Seq<char>>::empty(),
    decreases creators.len(),
{
    if creators.len() > 0 {
        let before = creators.drop_last();
        assert forall|k: int| 0 <= k < before.len() implies name_of(#[trigger] before[k])
            is None by {
            assert(before[k] == creators[k]);
        }
        lemma_none_named(before);
        assert(name_of(creators[creators.len() - 1]) is None);
    } else {
        assert(placement::author_names(creators) =~= Seq::<Seq<char>>::empty());
    }
}

proof fn lemma_some_named(creators: Seq<CreatorView>, j: int)
    requires
        0 <= j < creators.len(),
        name_of(creators[j]) is Some,
    ensures
        placement::author_names(creators).len() > 0,
{
    let a = creators.take(j);
    let one = creators.subrange(j, j + 1);
    let rest = creators.skip(j + 1);
    contributors_are_named_in_order(a, one + rest);
    contributors_are_named_in_order(one, rest);
    assert(creators =~= a + (one + rest));
    assert(one[0] == creators[j]);
}

/// A publication's name begins with the first contributor that is named. Where no other is, that is all
/// there is of contributors.
pub proof fn one_author_is_named_alone(parent: ItemView, i: int)
    requires
        0 <= i < parent.data.creators.len(),
        name_of(parent.data.creators[i]) is Some,
        forall|k: int|
            0 <= k < parent.data.creators.len() && k != i ==> name_of(
                #[trigger] parent.data.creators[k],
            ) is None,
    ensures
        placement::name_parts(parent).len() > 0,
        placement::name_parts(parent)[0] == name_of(parent.data.creators[i])->0,
{
    let creators = parent.data.creators;
    lemma_first_named(creators, i);
    let rest = creators.skip(i + 1);
    assert forall|k: int| 0 <= k < rest.len() implies name_of(#[trigger] rest[k]) is None by {
        assert(rest[k] == creators[i + 1 + k]);
    }
    lemma_none_named(rest);
    assert(placement::author_names(creators) =~= seq![name_of(creators[i])->0]);
}

/// Two named contributors are both in the name, in their order.
pub proof fn two_authors_are_both_named(parent: ItemView, i: int, j: int)
    requires
        0 <= i < j < parent.data.creators.len(),
        name_of(parent.data.creators[i]) is Some,
        name_of(parent.data.creators[j]) is Some,
        forall|k: int|
            0 <= k < parent.data.creators.len() && k != i && k != j ==> name_of(
                #[trigger] parent.data.creators[k],
            ) is None,
    ensures
        placement::name_parts(parent).len() > 0,
        placement::name_parts(parent)[0] == name_of(parent.data.creators[i])->0 + " & "@ + name_of(
            parent.data.creators[j],
        )->0,
{
    let creators = parent.data.creators;
    lemma_first_named(creators, i);
    let rest = creators.skip(i + 1);
    let at = j - i - 1;
    assert(rest[at] == creators[j]);
    assert forall|k: int| 0 <= k < at implies name_of(#[trigger] rest[k]) is None by {
        assert(rest[k] == creators[i + 1 + k]);
    }
    lemma_first_named(rest, at);
    let last = rest.skip(at + 1);
    assert forall|k: int| 0 <= k < last.len() implies name_of(#[trigger] last[k]) is None by {
        assert(last[k] == creators[j + 1 + k]);
    }
    lemma_none_named(last);
    assert(placement::author_names(creators) =~= seq![
        name_of(creators[i])->0,
        name_of(creators[j])->0,
    ]);
}

/// Of more than two named contributors, however many, the first alone is in the name, with the others
/// hinted at.
pub proof fn many_authors_are_named_by_the_first(parent: ItemView, i: int, j: int, k: int)
    requires
        0 <= i < j < k < parent.data.creators.len(),
        name_of(parent.data.creators[i]) is Some,
        name_of(parent.data.creators[j]) is Some,
        name_of(parent.data.creators[k]) is Some,
        forall|h: int| 0 <= h < i ==> name_of(#[trigger] parent.data.creators[h]) is None,
    ensures
        placement::name_parts(parent).len() > 0,
        placement::name_parts(parent)[0] == name_of(parent.data.creators[i])->0 + " et al."@,
{
    let creators = parent.data.creators;
    lemma_first_named(creators, i);
    let rest = creators.skip(i + 1);
    let a = rest.take(k - i - 1);
    let b = rest.skip(k - i - 1);
    contributors_are_named_in_order(a, b);
    assert(rest =~= a + b);
    assert(a[j - i - 1] == creators[j]);
    assert(b[0] == creators[k]);
    lemma_some_named(a, j - i - 1);
    lemma_some_named(b, 0);
    let names = placement::author_names(creators);
    assert(names.len() > 2);
    assert(names[0] == name_of(creators[i])->0);
}

/// The year that a publication's date tells.
pub open spec fn year_of(parent: ItemView) -> Option<Seq<char>> {
    match parent.data.date {
        Some(date) => placement::year_in(date),
        None => None,
    }
}

/// Whether any contributor of a publication is named.
pub open spec fn has_author(parent: ItemView) -> bool {
    exists|i: int|
        0 <= i < parent.data.creators.len() && name_of(#[trigger] parent.data.creators[i]) is Some
}

/// Whether a publication has a title that is not empty.
pub open spec fn has_title(parent: ItemView) -> bool {
    parent.data.title is Some && (parent.data.title->0).len() > 0
}

/// A publication is named by its contributors, its year and its title, in this order and each at most
/// once: each part is there exactly where the publication has it, and nothing else is.
pub proof fn publications_are_named_by_what_they_have(parent: ItemView)
    ensures
        ({
            let parts = placement::name_parts(parent);
            let authors: int = if has_author(parent) { 1 } else { 0 };
            let years: int = if year_of(parent) is Some { 1 } else { 0 };
            let titles: int = if has_title(parent) { 1 } else { 0 };
            &&& parts.len() == authors + years + titles
            &&& year_of(parent) is Some ==> parts[authors] == year_of(parent)->0
            &&& has_title(parent) ==> parts[authors + years] == parent.data.title->0
        }),
{
    let creators = parent.data.creators;
    if has_author(parent) {
        let i = choose|i: int|
            0 <= i < creators.len() && name_of(#[trigger] creators[i]) is Some;
        lemma_some_named(creators, i);
    } else {
        lemma_none_named(creators);
    }
}

/// The name of a document is its publication's parts with ` - ` between each two, made a name. Where
/// the publication has none of them, the document is named as if there were no publication.
pub proof fn documents_are_named_by_their_publication(
    item: ItemView,
    parent: ItemView,
    collections: Map<Seq<char>, CollectionView>,
)
    ensures
        ({
            let parts = placement::name_parts(parent);
            let name = placement::placement_of(item, Some(parent), collections).name;
            &&& parts.len() == 0 ==> name == placement::placement_of(item, None, collections).name
            &&& parts.len() == 1 ==> name == placement::sanitized(parts[0])
            &&& parts.len() == 2 ==> name == placement::sanitized(parts[0] + " - "@ + parts[1])
            &&& parts.len() == 3 ==> name == placement::sanitized(
                parts[0] + " - "@ + parts[1] + " - "@ + parts[2],
            )
        }),
{
    let parts = placement::name_parts(parent);
    let sep = " - "@;
    if parts.len() > 0 {
        text_laws::joining_goes_part_by_part(parts.take(1), parts.skip(1), sep);
        assert(parts =~= parts.take(1) + parts.skip(1));
        assert(parts.take(1)[0] == parts[0]);
        if parts.len() == 1 {
            assert(parts.take(1) =~= parts);
        } else {
            let rest = parts.skip(1);
            text_laws::joining_goes_part_by_part(rest.take(1), rest.skip(1), sep);
            assert(rest =~= rest.take(1) + rest.skip(1));
            if parts.len() == 2 {
                assert(rest.take(1) =~= rest);
            } else if parts.len() == 3 {
                text_laws::joining_goes_part_by_part(rest.skip(1), rest.skip(1), sep);
                assert(parts[0] + sep + (parts[1] + sep + parts[2]) =~= parts[0] + sep + parts[1]
                    + sep + parts[2]);
            }
        }
    }
}

/// A document without a known publication goes to the top, and is named by its file name, or else its
/// title, or else its key, without the endings `.pdf` and then `.PDF`.
pub proof fn documents_without_publication_keep_their_own_name(
    item: ItemView,
    collections: Map<Seq<char>, CollectionView>,
)
    ensures
        ({
            let p = placement::placement_of(item, None, collections);
            let base = if item.data.filename is Some {
                item.data.filename->0
            } else if item.data.title is Some {
                item.data.title->0
            } else {
                item.key
            };
            &&& p.folder_path.len() == 0
            &&& p.name == placement::sanitized(
                text::without_tails(text::without_tails(base, ".pdf"@), ".PDF"@),
            )
        }),
{
}

/// A document's folders are those of the first collection that its publication is filed under, and no
/// other collection and nothing else about the publication or the document matters: there are none
/// where that collection is unknown or there is none; else the last one is named by the collection,
/// and before it come the folders of a publication that is filed under the collection's parent.
pub proof fn folders_follow_the_collections(
    item: ItemView,
    other_item: ItemView,
    parent: ItemView,
    above: ItemView,
    collections: Map<Seq<char>, CollectionView>,
)
    requires
        collections.dom().finite(),
        placement::chain_ends(parent, collections),
        parent.data.collections.len() > 0 && collections.contains_key(parent.data.collections[0])
            ==> match collections[parent.data.collections[0]].data.parent_collection {
            Some(key) => above.data.collections.len() > 0 && above.data.collections[0] == key,
            None => above.data.collections.len() == 0,
        },
    ensures
        ({
            let path = placement::placement_of(item, Some(parent), collections).folder_path;
            if parent.data.collections.len() > 0 && collections.contains_key(
                parent.data.collections[0],
            ) {
                &&& placement::chain_ends(above, collections)
                &&& path == placement::placement_of(
                    other_item,
                    Some(above),
                    collections,
                ).folder_path.push(
                    placement::sanitized(collections[parent.data.collections[0]].data.name),
                )
            } else {
                path.len() == 0
            }
        }),
{
    if parent.data.collections.len() > 0 && collections.contains_key(parent.data.collections[0]) {
        let size = collections.len();
        assert(size > 0) by {
            if size == 0 {
                assert(collections.dom() =~= Set::<Seq<char>>::empty());
                assert(collections.dom().contains(parent.data.collections[0]));
            }
        }
        name_laws::only_circles_have_no_path(above, collections, (size - 1) as nat);
    }
}

/// The way up from a publication's collection ends exactly where the way up from that collection's
/// parent does, and it ends at once where the collection is unknown or there is none.
pub proof fn paths_end_where_those_above_end(
    parent: ItemView,
    above: ItemView,
    collections: Map<Seq<char>, CollectionView>,
)
    requires
        collections.dom().finite(),
        parent.data.collections.len() > 0 && collections.contains_key(parent.data.collections[0])
            ==> match collections[parent.data.collections[0]].data.parent_collection {
            Some(key) => above.data.collections.len() > 0 && above.data.collections[0] == key,
            None => above.data.collections.len() == 0,
        },
    ensures
        placement::chain_ends(parent, collections) == (if parent.data.collections.len() > 0
            && collections.contains_key(parent.data.collections[0]) {
            placement::chain_ends(above, collections)
        } else {
            true
        }),
{
    if parent.data.collections.len() > 0 && collections.contains_key(parent.data.collections[0]) {
        let size = collections.len();
        assert(size > 0) by {
            if size == 0 {
                assert(collections.dom() =~= Set::<Seq<char>>::empty());
                assert(collections.dom().contains(parent.data.collections[0]));
            }
        }
        if placement::chain_ends(parent, collections) {
            name_laws::only_circles_have_no_path(above, collections, (size - 1) as nat);
        }
        if placement::chain_ends(above, collections) {
            name_laws::only_circles_have_no_path(parent, collections, size + 1);
        }
    }
}

/// Whether a key names no collection of the library, or there is no key.
pub open spec fn leads_out(
    collections: Map<Seq<char>, CollectionView>,
    key: Option<Seq<char>>,
) -> bool {
    key is None || !collections.contains_key(key->0)
}

/// Whether this is the way up from a key: the collection of that key, its parent, the parent's parent
/// and so on, up to the last that has no parent in the library.
pub open spec fn is_way_up(
    collections: Map<Seq<char>, CollectionView>,
    key: Option<Seq<char>>,
    way: Seq<Seq<char>>,
) -> bool {
    &&& way.len() == 0 ==> leads_out(collections, key)
    &&& way.len() > 0 ==> {
        &&& key == Some(way[0])
        &&& leads_out(collections, collections[way.last()].data.parent_collection)
    }
    &&& forall|i: int| 0 <= i < way.len() ==> #[trigger] collections.contains_key(way[i])
    &&& forall|i: int|
        0 < i < way.len() ==> collections[way[i - 1]].data.parent_collection == Some(
            #[trigger] way[i],
        )
}

proof fn lemma_way_up(
    collections: Map<Seq<char>, CollectionView>,
    key: Option<Seq<char>>,
    way: Seq<Seq<char>>,
)
    requires
        is_way_up(collections, key, way),
    ensures
        placement::ends_within(collections, key, way.len()),
        placement::climb(collections, key, way.len()).len() == way.len(),
        forall|i: int|
            0 <= i < way.len() ==> placement::climb(collections, key, way.len())[way.len() - 1 - i]
                == placement::sanitized(collections[#[trigger] way[i]].data.name),
    decreases way.len(),
{
    if way.len() > 0 {
        let rest = way.drop_first();
        let above = collections[way[0]].data.parent_collection;
        assert(collections.contains_key(way[0]));
        assert(is_way_up(collections, above, rest)) by {
            if rest.len() > 0 {
                assert(rest[0] == way[1]);
                assert(rest.last() == way.last());
            }
            assert forall|i: int| 0 <= i < rest.len() implies #[trigger] collections.contains_key(
                rest[i],
            ) by {
                assert(collections.contains_key(way[i + 1]));
            }
            assert forall|i: int| 0 < i < rest.len() implies collections[rest[i
                - 1]].data.parent_collection == Some(#[trigger] rest[i]) by {
                assert(rest[i] == way[i + 1]);
                assert(rest[i - 1] == way[i]);
            }
        }
        lemma_way_up(collections, above, rest);
        let high = placement::climb(collections, above, rest.len());
        let path = placement::climb(collections, key, way.len());
        assert(path == high.push(placement::sanitized(collections[way[0]].data.name)));
        assert forall|i: int| 0 <= i < way.len() implies path[way.len() - 1 - i]
            == placement::sanitized(collections[#[trigger] way[i]].data.name) by {
            if i > 0 {
                assert(rest[i - 1] == way[i]);
            }
        }
    }
}

/// The key of the first collection that a publication is filed under.
pub open spec fn first_key(parent: ItemView) -> Option<Seq<char>> {
    if parent.data.collections.len() == 0 {
        None
    } else {
        Some(parent.data.collections[0])
    }
}

/// The folders of a document are the collections on the way up from the first one that its publication
/// is filed under: all of them, the outermost first, each by its name made a name for a folder. Every
/// way up that ends can be gone, however long it is.
pub proof fn folders_are_the_way_up(
    item: ItemView,
    parent: ItemView,
    collections: Map<Seq<char>, CollectionView>,
    way: Seq<Seq<char>>,
)
    requires
        collections.dom().finite(),
        is_way_up(collections, first_key(parent), way),
    ensures
        placement::chain_ends(parent, collections),
        ({
            let path = placement::placement_of(item, Some(parent), collections).folder_path;
            &&& path.len() == way.len()
            &&& forall|i: int|
                0 <= i < way.len() ==> path[way.len() - 1 - i] == placement::sanitized(
                    collections[#[trigger] way[i]].data.name,
                )
        }),
{
    lemma_way_up(collections, first_key(parent), way);
    name_laws::only_circles_have_no_path(parent, collections, way.len());
}

proof fn lemma_has_way_up(
    collections: Map<Seq<char>, CollectionView>,
    key: Option<Seq<char>>,
    steps: nat,
) -> (way: Seq<Seq<char>>)
    requires
        placement::ends_within(collections, key, steps),
    ensures
        is_way_up(collections, key, way),
    decreases steps,
{
    if leads_out(collections, key) {
        Seq::empty()
    } else {
        let above = collections[key->0].data.parent_collection;
        let rest = lemma_has_way_up(collections, above, (steps - 1) as nat);
        let way = seq![key->0] + rest;
        assert forall|i: int| 0 <= i < way.len() implies #[trigger] collections.contains_key(
            way[i],
        ) by {
            if i > 0 {
                assert(collections.contains_key(rest[i - 1]));
            }
        }
        assert forall|i: int| 0 < i < way.len() implies collections[way[i
            - 1]].data.parent_collection == Some(#[trigger] way[i]) by {
            assert(way[i] == rest[i - 1]);
            if i > 1 {
                assert(way[i - 1] == rest[i - 2]);
            }
        }
        if rest.len() > 0 {
            assert(way.last() == rest.last());
        }
        way
    }
}

/// A document is only placed where there is a way up that ends: collections that lead back to
/// themselves have none.
pub proof fn only_ways_that_end_are_gone(
    parent: ItemView,
    collections: Map<Seq<char>, CollectionView>,
) -> (way: Seq<Seq<char>>)
    requires
        placement::chain_ends(parent, collections),
    ensures
        is_way_up(collections, first_key(parent), way),
{
    lemma_has_way_up(collections, first_key(parent), collections.len())
}

} // verus!
