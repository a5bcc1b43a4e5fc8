//! What holds of every name and every folder path.
use vstd::prelude::*;

use crate::placement;
use crate::text;
use crate::zotero::{CollectionView, ItemView};

verus! {

/// One blank at a time, none at the start, and no other whitespace.
pub open spec fn well_spaced(s: Seq<char>) -> bool {
    &&& forall|i: int| 0 <= i < s.len() && text::is_white(#[trigger] s[i]) ==> s[i] == ' ' && i > 0
    &&& forall|i: int| 0 <= i < s.len() - 1 && #[trigger] s[i] == ' ' ==> s[i + 1] != ' '
}

/// Nothing that a name cannot hold.
pub open spec fn is_clean(s: Seq<char>) -> bool {
    forall|i: int|
        0 <= i < s.len() ==> !placement::is_forbidden(#[trigger] s[i]) && !text::is_control_char(
            s[i],
        )
}

spec fn is_word(w: Seq<char>) -> bool {
    &&& w.len() > 0
    &&& forall|i: int| 0 <= i < w.len() ==> !text::is_white(#[trigger] w[i])
}

spec fn clean_words(ws: Seq<Seq<char>>) -> bool {
    forall|i: int| 0 <= i < ws.len() ==> is_word(#[trigger] ws[i]) && is_clean(ws[i])
}

proof fn lemma_blank()
    ensures
        " "@ == seq![' '],
{
    reveal_strlit(" ");
    assert(" "@ =~= seq![' ']);
}

/// Joining can start with the first part as well as end with the last.
proof fn lemma_joined_front(first: Seq<char>, rest: Seq<Seq<char>>, sep: Seq<char>)
    ensures
        text::joined(seq![first] + rest, sep) == if rest.len() == 0 {
            first
        } else {
            first + sep + text::joined(rest, sep)
        },
    decreases rest.len(),
{
    let all = seq![first] + rest;
    if rest.len() == 0 {
        assert(all =~= seq![first]);
    } else {
        let rest0 = rest.drop_last();
        assert(all.drop_last() =~= seq![first] + rest0);
        assert(all.last() == rest.last());
        lemma_joined_front(first, rest0, sep);
        if rest0.len() == 0 {
            assert(rest =~= seq![rest[0]]);
            assert(text::joined(rest, sep) == rest[0]);
        } else {
            assert(first + sep + text::joined(rest0, sep) + sep + rest.last() =~= first + sep + (
            text::joined(rest0, sep) + sep + rest.last()));
        }
    }
}

proof fn lemma_words(s: Seq<char>)
    requires
        forall|i: int| 0 <= i < s.len() ==> #[trigger] placement::cleaned(s[i]) == s[i],
    ensures
        clean_words(text::words(s)),
    decreases s.len(),
{
    let t = text::trim_start(s);
    text::lemma_trim_start(s);
    text::lemma_word_len(t);
    if t.len() > 0 {
        let n = text::word_len(t) as int;
        let rest = t.skip(n);
        assert forall|i: int| 0 <= i < rest.len() implies #[trigger] placement::cleaned(rest[i])
            == rest[i] by {
            assert(rest[i] == s[s.len() - rest.len() + i]);
            assert(placement::cleaned(s[s.len() - rest.len() + i]) == rest[i]);
        }
        lemma_words(rest);
        let w = t.take(n);
        assert(is_clean(w)) by {
            assert forall|i: int| 0 <= i < w.len() implies !placement::is_forbidden(#[trigger] w[i])
                && !text::is_control_char(w[i]) by {
                let k = s.len() - t.len() + i;
                assert(w[i] == s[k]);
                assert(placement::cleaned(s[k]) == s[k]);
                assert(!text::is_white(t[i]));
            }
        }
        assert(is_word(w)) by {
            assert forall|i: int| 0 <= i < w.len() implies !text::is_white(#[trigger] w[i]) by {
                assert(w[i] == t[i]);
            }
        }
        assert(text::words(s) =~= seq![w] + text::words(rest));
    }
}

/// Words joined by single blanks are well spaced, clean, and end in no blank.
proof fn lemma_joined_words(ws: Seq<Seq<char>>)
    requires
        clean_words(ws),
    ensures
        well_spaced(text::joined(ws, " "@)),
        is_clean(text::joined(ws, " "@)),
        ws.len() > 0 ==> text::joined(ws, " "@).len() > 0 && text::joined(ws, " "@).last() != ' ',
        ws.len() == 0 ==> text::joined(ws, " "@).len() == 0,
    decreases ws.len(),
{
    lemma_blank();
    if ws.len() == 0 {
    } else if ws.len() == 1 {
        assert(is_word(ws[0]));
        assert(is_clean(ws[0]));
        assert(!text::is_white(ws[0][ws[0].len() - 1]));
    } else {
        let front = text::joined(ws.drop_last(), " "@);
        let w = ws.last();
        assert(clean_words(ws.drop_last())) by {
            assert forall|i: int| 0 <= i < ws.drop_last().len() implies is_word(
                #[trigger] ws.drop_last()[i],
            ) && is_clean(ws.drop_last()[i]) by {
                assert(ws.drop_last()[i] == ws[i]);
            }
        }
        lemma_joined_words(ws.drop_last());
        assert(is_word(w) && is_clean(w));
        let all = front + " "@ + w;
        assert(all =~= text::joined(ws, " "@));
        assert forall|i: int| 0 <= i < all.len() && text::is_white(#[trigger] all[i]) implies all[i]
            == ' ' && i > 0 by {
            if i < front.len() {
                assert(all[i] == front[i]);
            } else if i > front.len() {
                assert(all[i] == w[i - front.len() - 1]);
            }
        }
        assert forall|i: int| 0 <= i < all.len() - 1 && #[trigger] all[i] == ' ' implies all[i + 1]
            != ' ' by {
            if i < front.len() {
                assert(all[i] == front[i]);
                if i + 1 < front.len() {
                    assert(all[i + 1] == front[i + 1]);
                }
            } else if i == front.len() {
                assert(all[i + 1] == w[0]);
                assert(!text::is_white(w[0]));
            } else {
                assert(all[i] == w[i - front.len() - 1]);
            }
        }
        assert forall|i: int| 0 <= i < all.len() implies !placement::is_forbidden(#[trigger] all[i])
            && !text::is_control_char(all[i]) by {
            if i < front.len() {
                assert(all[i] == front[i]);
            } else if i > front.len() {
                assert(all[i] == w[i - front.len() - 1]);
            }
        }
        assert(all.last() == w[w.len() - 1]);
        assert(!text::is_white(w[w.len() - 1]));
    }
}

/// A clean text's words joined by blanks are nothing exactly where there are no words.
pub(crate) proof fn lemma_words_joined(s: Seq<char>)
    requires
        forall|i: int| 0 <= i < s.len() ==> #[trigger] placement::cleaned(s[i]) == s[i],
    ensures
        text::joined(text::words(s), " "@).len() == 0 <==> text::words(s).len() == 0,
{
    lemma_words(s);
    lemma_joined_words(text::words(s));
}

proof fn lemma_spaced(s: Seq<char>)
    ensures
        well_spaced(placement::spaced(s)),
        is_clean(placement::spaced(s)),
{
    let c = placement::cleaned_text(s);
    assert forall|i: int| 0 <= i < c.len() implies #[trigger] placement::cleaned(c[i]) == c[i] by {
        assert(c[i] == placement::cleaned(s[i]));
    }
    lemma_words(c);
    lemma_joined_words(text::words(c));
}

/// No name takes more than the limit, holds a character that it cannot hold, starts with a blank or
/// has two blanks in a row.
pub proof fn names_are_storable(s: Seq<char>)
    ensures
        text::byte_len(placement::sanitized(s)) <= placement::NAME_LIMIT,
        is_clean(placement::sanitized(s)),
        well_spaced(placement::sanitized(s)),
{
    lemma_spaced(s);
    let whole = placement::spaced(s);
    let name = placement::sanitized(s);
    text::lemma_prefix_within(whole, placement::NAME_LIMIT as int);
    assert forall|i: int| 0 <= i < name.len() implies name[i] == whole[i] by {}
    assert forall|i: int| 0 <= i < name.len() - 1 && #[trigger] name[i] == ' ' implies name[i + 1]
        != ' ' by {
        assert(whole[i] == ' ');
        assert(name[i + 1] == whole[i + 1]);
    }
}

/// Of a name that was too long, as many characters are kept as fit: one more would pass the limit.
pub proof fn names_are_cut_late(s: Seq<char>)
    ensures
        placement::sanitized(s).is_prefix_of(placement::spaced(s)),
        text::byte_len(placement::spaced(s)) <= placement::NAME_LIMIT ==> placement::sanitized(s)
            == placement::spaced(s),
        placement::sanitized(s) != placement::spaced(s) ==> text::byte_len(
            placement::spaced(s).take(placement::sanitized(s).len() as int + 1),
        ) > placement::NAME_LIMIT,
{
    text::lemma_prefix_within(placement::spaced(s), placement::NAME_LIMIT as int);
    let whole = placement::spaced(s);
    if text::fitting(whole, placement::NAME_LIMIT as int) == whole.len() {
        assert(placement::sanitized(s) =~= whole);
    }
}

/// Splitting a well-spaced text into words and joining them again changes nothing.
proof fn lemma_respaced(x: Seq<char>)
    requires
        well_spaced(x),
        x.len() > 0 ==> x.last() != ' ',
    ensures
        text::joined(text::words(x), " "@) == x,
    decreases x.len(),
{
    lemma_blank();
    text::lemma_trim_start(x);
    let t = text::trim_start(x);
    if x.len() == 0 {
        assert(text::words(x) =~= Seq::<Seq<char>>::empty());
    } else {
        assert(t =~= x) by {
            if t.len() < x.len() {
                assert(text::is_white(x[0]));
            }
        }
        text::lemma_word_len(x);
        let n = text::word_len(x) as int;
        let w = x.take(n);
        let rest = x.skip(n);
        if n == x.len() {
            assert(rest =~= Seq::<char>::empty());
            assert(text::words(rest) =~= Seq::<Seq<char>>::empty());
            lemma_joined_front(w, text::words(rest), " "@);
            assert(w =~= x);
        } else {
            assert(x[n] == ' ');
            assert(n + 1 < x.len());
            let y = x.skip(n + 1);
            assert(x[n + 1] != ' ');
            assert(y[0] == x[n + 1]);
            assert(!text::is_white(y[0]));
            assert forall|i: int| 0 <= i < y.len() && text::is_white(#[trigger] y[i]) implies y[i]
                == ' ' && i > 0 by {
                assert(y[i] == x[n + 1 + i]);
            }
            assert forall|i: int| 0 <= i < y.len() - 1 && #[trigger] y[i] == ' ' implies y[i + 1]
                != ' ' by {
                assert(x[n + 1 + i] == ' ');
                assert(y[i + 1] == x[n + 1 + i + 1]);
            }
            lemma_respaced(y);
            assert(rest.drop_first() =~= y);
            assert(text::trim_start(rest) == text::trim_start(y));
            assert(text::words(rest) == text::words(y));
            assert(text::words(y).len() > 0) by {
                if text::words(y).len() == 0 {
                    assert(text::joined(text::words(y), " "@).len() == 0);
                }
            }
            lemma_joined_front(w, text::words(rest), " "@);
            assert(w + " "@ + y =~= x);
        }
    }
}

/// Whitespace at the end of a text adds no word.
proof fn lemma_blank_end(y: Seq<char>)
    ensures
        text::words(y.push(' ')) == text::words(y),
    decreases y.len(),
{
    let x = y.push(' ');
    lemma_trim_before_blank(y);
    text::lemma_trim_start(y);
    let t = text::trim_start(y);
    if t.len() == 0 {
        assert(text::words(y) =~= Seq::<Seq<char>>::empty());
        assert(text::words(x) =~= Seq::<Seq<char>>::empty());
    } else {
        lemma_word_before_blank(t);
        text::lemma_word_len(t);
        let n = text::word_len(t) as int;
        let tx = t.push(' ');
        assert(n > 0);
        assert(tx.take(n) =~= t.take(n));
        assert(tx.skip(n) =~= t.skip(n).push(' '));
        lemma_blank_end(t.skip(n));
    }
}

proof fn lemma_trim_before_blank(y: Seq<char>)
    ensures
        text::trim_start(y.push(' ')) == if text::trim_start(y).len() == 0 {
            Seq::<char>::empty()
        } else {
            text::trim_start(y).push(' ')
        },
    decreases y.len(),
{
    let x = y.push(' ');
    if y.len() == 0 {
        assert(x.drop_first() =~= Seq::<char>::empty());
        assert(text::trim_start(x.drop_first()) == x.drop_first());
    } else if text::is_white(y[0]) {
        assert(x.drop_first() =~= y.drop_first().push(' '));
        lemma_trim_before_blank(y.drop_first());
    }
}

proof fn lemma_word_before_blank(t: Seq<char>)
    ensures
        text::word_len(t.push(' ')) == text::word_len(t),
    decreases t.len(),
{
    let x = t.push(' ');
    if t.len() > 0 && !text::is_white(t[0]) {
        assert(x.drop_first() =~= t.drop_first().push(' '));
        lemma_word_before_blank(t.drop_first());
    }
}

/// A text takes no less than what is left of it without its last character.
proof fn lemma_shorter(s: Seq<char>)
    requires
        s.len() > 0,
    ensures
        text::byte_len(s.drop_last()) <= text::byte_len(s),
    decreases s.len(),
{
    text::lemma_byte_len_step(s);
    if s.len() > 1 {
        text::lemma_byte_len_step(s.drop_last());
        assert(s.drop_last().drop_first() =~= s.drop_first().drop_last());
        lemma_shorter(s.drop_first());
    } else {
        assert(s.drop_last() =~= Seq::<char>::empty());
        assert(s.drop_first() =~= Seq::<char>::empty());
    }
}

/// A name is all but a name already: making it one again takes away the one blank that it ends in
/// where it was cut right after it, and changes nothing else. From then on it stays as it is.
pub proof fn names_stay(s: Seq<char>)
    ensures
        ({
            let name = placement::sanitized(s);
            let again = placement::sanitized(name);
            &&& again == if name.len() > 0 && name.last() == ' ' {
                name.drop_last()
            } else {
                name
            }
            &&& placement::sanitized(again) == again
        }),
{
    let name = placement::sanitized(s);
    names_are_storable(s);
    if name.len() > 0 && name.last() == ' ' {
        let again = name.drop_last();
        assert(name =~= again.push(' '));
        assert(name.len() > 1) by {
            assert(text::is_white(name[name.len() - 1]));
        }
        assert(again.last() != ' ') by {
            if again.last() == ' ' {
                assert(name[name.len() - 2] == ' ');
            }
        }
        assert(placement::cleaned_text(name) =~= name) by {
            assert forall|i: int| 0 <= i < name.len() implies placement::cleaned_text(name)[i]
                == name[i] by {
                assert(!placement::is_forbidden(name[i]));
            }
        }
        assert forall|i: int| 0 <= i < again.len() && text::is_white(
            #[trigger] again[i],
        ) implies again[i] == ' ' && i > 0 by {
            assert(name[i] == again[i]);
        }
        assert forall|i: int| 0 <= i < again.len() - 1 && #[trigger] again[i]
            == ' ' implies again[i + 1] != ' ' by {
            assert(name[i] == ' ');
            assert(name[i + 1] == again[i + 1]);
        }
        lemma_blank_end(again);
        lemma_respaced(again);
        lemma_shorter(name);
        text::lemma_prefix_within(again, placement::NAME_LIMIT as int);
        assert(placement::sanitized(name) == again);
    } else {
        lemma_stays(s);
    }
    lemma_stays(name);
}

/// A name that does not end in a blank is not changed.
proof fn lemma_stays(s: Seq<char>)
    requires
        placement::sanitized(s).len() > 0 ==> placement::sanitized(s).last() != ' ',
    ensures
        placement::sanitized(placement::sanitized(s)) == placement::sanitized(s),
{
    names_are_storable(s);
    let name = placement::sanitized(s);
    assert(placement::cleaned_text(name) =~= name) by {
        assert forall|i: int| 0 <= i < name.len() implies placement::cleaned_text(name)[i]
            == name[i] by {
            assert(!placement::is_forbidden(name[i]));
        }
    }
    lemma_respaced(name);
    text::lemma_prefix_within(name, placement::NAME_LIMIT as int);
}

/// The name of every placement, and of every folder on its path, is one that the tablet can store.
pub proof fn placements_are_storable(
    item: ItemView,
    parent: Option<ItemView>,
    collections: Map<Seq<char>, CollectionView>,
)
    ensures
        ({
            let p = placement::placement_of(item, parent, collections);
            &&& storable(p.name)
            &&& forall|i: int|
                0 <= i < p.folder_path.len() ==> storable(#[trigger] p.folder_path[i])
        }),
{
    let base = match (item.data.filename, item.data.title) {
        (Some(filename), _) => filename,
        (None, Some(title)) => title,
        (None, None) => item.key,
    };
    names_are_storable(text::without_tails(text::without_tails(base, ".pdf"@), ".PDF"@));
    match parent {
        Some(p) => {
            names_are_storable(text::joined(placement::name_parts(p), " - "@));
            lemma_climb_storable(
                collections,
                placement::first_collection(p),
                collections.len(),
            );
        },
        None => {},
    }
}

/// A name that takes no more than the limit and holds nothing that it cannot hold.
pub open spec fn storable(name: Seq<char>) -> bool {
    &&& text::byte_len(name) <= placement::NAME_LIMIT
    &&& is_clean(name)
    &&& well_spaced(name)
}

proof fn lemma_climb_storable(
    collections: Map<Seq<char>, CollectionView>,
    key: Option<Seq<char>>,
    steps: nat,
)
    ensures
        forall|i: int|
            0 <= i < placement::climb(collections, key, steps).len() ==> storable(
                #[trigger] placement::climb(collections, key, steps)[i],
            ),
    decreases steps,
{
    if !placement::is_outside(collections, key) && steps > 0 {
        names_are_storable(collections[key->0].data.name);
        lemma_climb_storable(
            collections,
            collections[key->0].data.parent_collection,
            (steps - 1) as nat,
        );
        let above = placement::climb(
            collections,
            collections[key->0].data.parent_collection,
            (steps - 1) as nat,
        );
        let all = placement::climb(collections, key, steps);
        assert forall|i: int| 0 <= i < all.len() implies storable(#[trigger] all[i]) by {
            if i < above.len() {
                assert(all[i] == above[i]);
            }
        }
    }
}

/// The year of a date is its first four digits in a row: there are none before them, and where there
/// are any the date has a year.
pub proof fn years_are_the_first_four_digits(s: Seq<char>)
    ensures
        match placement::year_in(s) {
            Some(year) => exists|i: int|
                #![trigger placement::four_digits_at(s, i)]
                placement::four_digits_at(s, i) && year == s.subrange(i, i + 4) && forall|j: int|
                    0 <= j < i ==> !placement::four_digits_at(s, j),
            None => forall|i: int| !placement::four_digits_at(s, i),
        },
    decreases s.len(),
{
    if s.len() < 4 {
    } else if placement::four_digits_at(s, 0) {
        assert(s.take(4) =~= s.subrange(0, 4));
    } else {
        let t = s.drop_first();
        years_are_the_first_four_digits(t);
        assert forall|j: int| 0 < j implies placement::four_digits_at(s, j)
            == placement::four_digits_at(t, j - 1) by {
            if j + 4 <= s.len() {
                assert(t[j - 1] == s[j] && t[j] == s[j + 1] && t[j + 1] == s[j + 2] && t[j + 2]
                    == s[j + 3]);
            }
        }
        match placement::year_in(s) {
            Some(year) => {
                let i = choose|i: int|
                    #![trigger placement::four_digits_at(t, i)]
                    placement::four_digits_at(t, i) && year == t.subrange(i, i + 4) && forall|j: int|
                        0 <= j < i ==> !placement::four_digits_at(t, j);
                assert(placement::four_digits_at(s, i + 1));
                assert(t.subrange(i, i + 4) =~= s.subrange(i + 1, i + 5));
                assert forall|j: int| 0 <= j < i + 1 implies !placement::four_digits_at(s, j) by {
                    if j > 0 {
                        assert(!placement::four_digits_at(t, j - 1));
                    }
                }
            },
            None => {
                assert forall|i: int| !placement::four_digits_at(s, i) by {
                    if i > 0 {
                        assert(!placement::four_digits_at(t, i - 1));
                    }
                }
            },
        }
    }
}

/// The collection reached after `steps` steps upwards, staying put once outside.
spec fn ancestor(
    collections: Map<Seq<char>, CollectionView>,
    key: Option<Seq<char>>,
    steps: nat,
) -> Option<Seq<char>>
    decreases steps,
{
    if steps == 0 || placement::is_outside(collections, key) {
        key
    } else {
        ancestor(collections, collections[key->0].data.parent_collection, (steps - 1) as nat)
    }
}

proof fn lemma_ends_at(
    collections: Map<Seq<char>, CollectionView>,
    key: Option<Seq<char>>,
    steps: nat,
)
    ensures
        placement::ends_within(collections, key, steps) == placement::is_outside(
            collections,
            ancestor(collections, key, steps),
        ),
    decreases steps,
{
    if !placement::is_outside(collections, key) && steps > 0 {
        lemma_ends_at(
            collections,
            collections[key->0].data.parent_collection,
            (steps - 1) as nat,
        );
    }
}

proof fn lemma_ancestor_of_ancestor(
    collections: Map<Seq<char>, CollectionView>,
    key: Option<Seq<char>>,
    a: nat,
    b: nat,
)
    ensures
        ancestor(collections, key, a + b) == ancestor(
            collections,
            ancestor(collections, key, a),
            b,
        ),
    decreases a,
{
    if !placement::is_outside(collections, key) && a > 0 {
        lemma_ancestor_of_ancestor(
            collections,
            collections[key->0].data.parent_collection,
            (a - 1) as nat,
            b,
        );
    }
}

proof fn lemma_more_steps(
    collections: Map<Seq<char>, CollectionView>,
    key: Option<Seq<char>>,
    n: nat,
    k: nat,
)
    requires
        placement::ends_within(collections, key, n),
        n <= k,
    ensures
        placement::ends_within(collections, key, k),
        placement::climb(collections, key, k) == placement::climb(collections, key, n),
    decreases n,
{
    if !placement::is_outside(collections, key) {
        lemma_more_steps(
            collections,
            collections[key->0].data.parent_collection,
            (n - 1) as nat,
            (k - 1) as nat,
        );
    }
}

/// A way upwards that ends at all ends within as many steps as there are collections, and by then
/// has named every folder on it: only a circle of collections has no folder path.
pub proof fn only_circles_have_no_path(
    item: ItemView,
    collections: Map<Seq<char>, CollectionView>,
    steps: nat,
)
    requires
        collections.dom().finite(),
        placement::ends_within(collections, placement::first_collection(item), steps),
    ensures
        placement::chain_ends(item, collections),
        placement::folders_of(item, collections) == placement::climb(
            collections,
            placement::first_collection(item),
            steps,
        ),
    decreases steps,
{
    let key = placement::first_collection(item);
    let size = collections.len();
    if steps > 0 && placement::ends_within(collections, key, (steps - 1) as nat) {
        only_circles_have_no_path(item, collections, (steps - 1) as nat);
        lemma_more_steps(collections, key, (steps - 1) as nat, steps);
    } else {
        // `steps` is the least number of steps: the collections on the way differ.
        let way = Seq::new(steps, |i: int| ancestor(collections, key, i as nat)->0);
        assert forall|i: int| 0 <= i < steps implies !placement::is_outside(
            collections,
            #[trigger] ancestor(collections, key, i as nat),
        ) by {
            lemma_ends_at(collections, key, i as nat);
            if placement::ends_within(collections, key, i as nat) {
                lemma_more_steps(collections, key, i as nat, (steps - 1) as nat);
            }
        }
        assert(way.no_duplicates()) by {
            assert forall|i: int, j: int| 0 <= i < j < way.len() implies way[i] != way[j] by {
                if way[i] == way[j] {
                    let ai = ancestor(collections, key, i as nat);
                    let aj = ancestor(collections, key, j as nat);
                    assert(!placement::is_outside(collections, ai));
                    assert(!placement::is_outside(collections, aj));
                    assert(ai == aj);
                    let t = (steps - j) as nat;
                    lemma_ancestor_of_ancestor(collections, key, i as nat, t);
                    lemma_ancestor_of_ancestor(collections, key, j as nat, t);
                    lemma_ends_at(collections, key, steps);
                    assert(ancestor(collections, key, (i + t) as nat) == ancestor(
                        collections,
                        key,
                        steps,
                    ));
                    assert(!placement::is_outside(
                        collections,
                        ancestor(collections, key, (i + t) as nat),
                    ));
                }
            }
        }
        way.unique_seq_to_set();
        assert(way.to_set().subset_of(collections.dom())) by {
            assert forall|k: Seq<char>| way.to_set().contains(k) implies collections.dom().contains(
                k,
            ) by {
                let i = choose|i: int| 0 <= i < way.len() && way[i] == k;
                assert(!placement::is_outside(collections, ancestor(collections, key, i as nat)));
            }
        }
        vstd::set_lib::lemma_len_subset(way.to_set(), collections.dom());
        lemma_more_steps(collections, key, steps, size);
    }
}

} // verus!
