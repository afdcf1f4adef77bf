//! Aggregation utilities over word lists and keyed items: occurrence
//! counting and stable grouping by key.

use vstd::prelude::*;

verus! {

/// The number of occurrences of a word in a list.
pub open spec fn count_of(words: Seq<Seq<char>>, w: Seq<char>) -> nat
    decreases words.len(),
{
    if words.len() == 0 {
        0
    } else {
        count_of(words.drop_last(), w) + if words.last() == w {
            1nat
        } else {
            0nat
        }
    }
}

/// Count how often this word occurs in the list.
fn count_word(words: &[String], w: &String) -> (r: usize)
    ensures
        r == count_of(words.deep_view(), w@),
{
    let mut count: usize = 0;
    let mut k: usize = 0;
    while k < words.len()
        invariant
            k <= words.len(),
            count == count_of(words.deep_view().take(k as int), w@),
            count <= k,
        decreases words.len() - k,
    {
        let ghost prefix = words.deep_view().take(k as int);
        proof {
            assert(words.deep_view().take(k + 1).drop_last() =~= prefix);
            assert(words.deep_view().take(k + 1).last() == words.deep_view()[k as int]);
        }
        if words[k] == *w {
            count += 1;
        }
        k += 1;
    }
    proof {
        assert(words.deep_view().take(words.len() as int) =~= words.deep_view());
    }
    count
}

/// The position of the first frequency entry for this word, if any.
fn find_word(entries: &Vec<(String, usize)>, w: &String) -> (r: Option<usize>)
    ensures
        match r {
            Some(i) => i < entries.len() && entries@[i as int].0@ == w@,
            None => forall|i: int| 0 <= i < entries.len() ==> entries@[i].0@ != w@,
        },
{
    let mut k: usize = 0;
    while k < entries.len()
        invariant
            k <= entries.len(),
            forall|i: int| 0 <= i < k ==> entries@[i].0@ != w@,
        decreases entries.len() - k,
    {
        if entries[k].0 == *w {
            return Some(k);
        }
        k += 1;
    }
    None
}

/// The frequency table of a word list: one entry per distinct word,
/// mapping it to its number of occurrences.
pub fn word_freq(words: &[String]) -> (r: Vec<(String, usize)>)
    ensures
        forall|i: int, j: int| 0 <= i < j < r.len() ==> r@[i].0@ != r@[j].0@,
        forall|i: int| 0 <= i < r.len() ==> r@[i].1 == count_of(words.deep_view(), r@[i].0@),
        forall|i: int| 0 <= i < r.len() ==> count_of(words.deep_view(), r@[i].0@) > 0,
        forall|w: Seq<char>|
            words.deep_view().contains(w) ==> exists|i: int| 0 <= i < r.len() && r@[i].0@ == w,
{
    let mut r: Vec<(String, usize)> = Vec::new();
    let mut k: usize = 0;
    while k < words.len()
        invariant
            k <= words.len(),
            forall|i: int, j: int| 0 <= i < j < r.len() ==> r@[i].0@ != r@[j].0@,
            forall|i: int| 0 <= i < r.len() ==> r@[i].1 == count_of(words.deep_view(), r@[i].0@),
            forall|i: int| 0 <= i < r.len() ==> count_of(words.deep_view(), r@[i].0@) > 0,
            forall|w: Seq<char>|
                words.deep_view().take(k as int).contains(w) ==> exists|i: int|
                    0 <= i < r.len() && r@[i].0@ == w,
        decreases words.len() - k,
    {
        let w = &words[k];
        let found = find_word(&r, w);
        match found {
            Some(i) => {
                proof {
                    assert(r@[i as int].0@ == w@);
                }
            },
            None => {
                let ghost r0 = r@;
                let count = count_word(words, w);
                proof {
                    lemma_count_occurrence(words.deep_view(), k as int);
                }
                r.push((w.clone(), count));
                proof {
                    assert(forall|i: int| 0 <= i < r0.len() ==> r@[i] == r0[i]);
                    assert(r@[r0.len() as int].0@ == w@);
                }
            },
        }
        proof {
            assert(words.deep_view()[k as int] == w@);
            assert forall|x: Seq<char>| #[trigger] words.deep_view().take(k + 1).contains(x)
                implies exists|i: int| 0 <= i < r.len() && r@[i].0@ == x by {
                let t = choose|t: int|
                    0 <= t < k + 1 && #[trigger] words.deep_view().take(k + 1)[t] == x;
                if t < k {
                    assert(words.deep_view().take(k as int)[t] == x);
                    assert(words.deep_view().take(k as int).contains(x));
                } else {
                    assert(x == w@);
                }
            }
        }
        k += 1;
    }
    proof {
        assert(words.deep_view().take(words.len() as int) =~= words.deep_view());
    }
    r
}

/// A word at a valid position occurs at least once.
proof fn lemma_count_occurrence(words: Seq<Seq<char>>, k: int)
    requires
        0 <= k < words.len(),
    ensures
        count_of(words, words[k]) > 0,
    decreases words.len(),
{
    if k == words.len() - 1 {
    } else {
        assert(words.drop_last()[k] == words[k]);
        lemma_count_occurrence(words.drop_last(), k);
    }
}

/// A keyed item, as grouping works on it.
#[derive(Debug)]
pub struct Item {
    pub key: String,
    pub val: i32,
}

/// The mathematical image of an `Item`.
pub ghost struct ItemView {
    pub key: Seq<char>,
    pub val: i32,
}

impl View for Item {
    type V = ItemView;

    open spec fn view(&self) -> ItemView {
        ItemView { key: self.key@, val: self.val }
    }
}

impl DeepView for Item {
    type V = ItemView;

    open spec fn deep_view(&self) -> ItemView {
        self.view()
    }
}

impl Clone for Item {
    fn clone(&self) -> (r: Self)
        ensures
            r@ == self@,
    {
        Item { key: self.key.clone(), val: self.val }
    }
}

/// The subsequence of items carrying this key, in their original order.
pub open spec fn items_with_key(items: Seq<ItemView>, key: Seq<char>) -> Seq<ItemView>
    decreases items.len(),
{
    if items.len() == 0 {
        Seq::empty()
    } else {
        let rest = items_with_key(items.drop_last(), key);
        if items.last().key == key {
            rest.push(items.last())
        } else {
            rest
        }
    }
}

/// An item at a valid position appears in its key's group.
proof fn lemma_items_with_key_nonempty(items: Seq<ItemView>, k: int)
    requires
        0 <= k < items.len(),
    ensures
        items_with_key(items, items[k].key).len() > 0,
    decreases items.len(),
{
    if k == items.len() - 1 {
    } else {
        assert(items.drop_last()[k] == items[k]);
        lemma_items_with_key_nonempty(items.drop_last(), k);
    }
}

/// The position of the first key in the list equal to this one, if any.
fn find_key(keys: &Vec<String>, key: &String) -> (r: Option<usize>)
    ensures
        match r {
            Some(i) => i < keys.len() && keys.deep_view()[i as int] == key@,
            None => forall|i: int| 0 <= i < keys.len() ==> keys.deep_view()[i] != key@,
        },
{
    let mut k: usize = 0;
    while k < keys.len()
        invariant
            k <= keys.len(),
            forall|i: int| 0 <= i < k ==> keys.deep_view()[i] != key@,
        decreases keys.len() - k,
    {
        if keys[k] == *key {
            assert(keys.deep_view()[k as int] == key@);
            return Some(k);
        }
        k += 1;
    }
    None
}

/// Collect the items with this key, in their original order.
fn collect_group(items: &[Item], key: &String) -> (r: Vec<Item>)
    ensures
        r.deep_view() == items_with_key(items.deep_view(), key@),
{
    let mut r: Vec<Item> = Vec::new();
    let mut k: usize = 0;
    while k < items.len()
        invariant
            k <= items.len(),
            r.deep_view() =~= items_with_key(items.deep_view().take(k as int), key@),
        decreases items.len() - k,
    {
        let ghost prefix = items.deep_view().take(k as int);
        proof {
            assert(items.deep_view().take(k + 1).drop_last() =~= prefix);
            assert(items.deep_view().take(k + 1).last() == items.deep_view()[k as int]);
        }
        if items[k].key == *key {
            r.push(items[k].clone());
        }
        k += 1;
    }
    proof {
        assert(items.deep_view().take(items.len() as int) =~= items.deep_view());
    }
    r
}

/// This key occurs in the key list.
pub open spec fn key_listed(keys: Seq<Seq<char>>, key: Seq<char>) -> bool {
    exists|i: int| 0 <= i < keys.len() && keys[i] == key
}

/// Some item carries this key.
pub open spec fn key_used(items: Seq<ItemView>, key: Seq<char>) -> bool {
    exists|t: int| 0 <= t < items.len() && items[t].key == key
}

/// The distinct keys of the items, in first-occurrence order.
fn collect_unique_keys(items: &[Item]) -> (keys: Vec<String>)
    ensures
        forall|i: int, j: int|
            0 <= i < j < keys.len() ==> keys.deep_view()[i] != keys.deep_view()[j],
        forall|t: int|
            0 <= t < items.len() ==> key_listed(
                keys.deep_view(),
                (#[trigger] items.deep_view()[t]).key,
            ),
        forall|i: int|
            0 <= i < keys.len() ==> key_used(items.deep_view(), #[trigger] keys.deep_view()[i]),
{
    let mut keys: Vec<String> = Vec::new();
    let mut k: usize = 0;
    while k < items.len()
        invariant
            k <= items.len(),
            forall|i: int, j: int|
                0 <= i < j < keys.len() ==> keys.deep_view()[i] != keys.deep_view()[j],
            forall|t: int|
                0 <= t < k ==> key_listed(
                    keys.deep_view(),
                    (#[trigger] items.deep_view()[t]).key,
                ),
            forall|i: int|
                0 <= i < keys.len() ==> key_used(
                    items.deep_view(),
                    #[trigger] keys.deep_view()[i],
                ),
        decreases items.len() - k,
    {
        let ghost keys0 = keys.deep_view();
        let found = find_key(&keys, &items[k].key);
        match found {
            Some(i) => {
                proof {
                    assert(keys.deep_view()[i as int] == items.deep_view()[k as int].key);
                    assert(key_listed(keys.deep_view(), items.deep_view()[k as int].key));
                }
            },
            None => {
                keys.push(items[k].key.clone());
                proof {
                    assert(keys.deep_view() =~= keys0.push(items.deep_view()[k as int].key));
                    assert(keys.deep_view()[keys0.len() as int] == items.deep_view()[
                        k as int
                    ].key);
                    assert(key_used(items.deep_view(), keys.deep_view()[keys0.len() as int]));
                    assert forall|t: int| 0 <= t < k + 1 implies key_listed(
                        keys.deep_view(),
                        (#[trigger] items.deep_view()[t]).key,
                    ) by {
                        if t < k {
                            assert(key_listed(keys0, items.deep_view()[t].key));
                            let i = choose|i: int|
                                0 <= i < keys0.len() && keys0[i] == items.deep_view()[t].key;
                            assert(keys.deep_view()[i] == items.deep_view()[t].key);
                        } else {
                            assert(keys.deep_view()[keys0.len() as int] == items.deep_view()[
                                t
                            ].key);
                        }
                    }
                }
            },
        }
        k += 1;
    }
    keys
}

/// The grouping reports an entry under this key.
pub open spec fn key_reported(r: Seq<(String, Vec<Item>)>, key: Seq<char>) -> bool {
    exists|i: int| 0 <= i < r.len() && r[i].0@ == key
}

/// Group items by key: one entry per distinct key, in first-occurrence
/// order, each holding exactly that key's items in their original order.
pub fn group_by_key(items: &[Item]) -> (r: Vec<(String, Vec<Item>)>)
    ensures
        forall|i: int, j: int| 0 <= i < j < r.len() ==> r@[i].0@ != r@[j].0@,
        forall|i: int|
            0 <= i < r.len() ==> (#[trigger] r@[i].1).deep_view() == items_with_key(
                items.deep_view(),
                r@[i].0@,
            ),
        forall|i: int| 0 <= i < r.len() ==> items_with_key(items.deep_view(), r@[i].0@).len() > 0,
        forall|t: int|
            0 <= t < items.len() ==> key_reported(r@, (#[trigger] items.deep_view()[t]).key),
{
    let keys = collect_unique_keys(items);
    let mut r: Vec<(String, Vec<Item>)> = Vec::new();
    let mut k: usize = 0;
    while k < keys.len()
        invariant
            k <= keys.len(),
            r.len() == k,
            forall|i: int, j: int|
                0 <= i < j < keys.len() ==> keys.deep_view()[i] != keys.deep_view()[j],
            forall|i: int| 0 <= i < k ==> (#[trigger] r@[i].0)@ == keys.deep_view()[i],
            forall|i: int|
                0 <= i < k ==> (#[trigger] r@[i].1).deep_view() == items_with_key(
                    items.deep_view(),
                    keys.deep_view()[i],
                ),
            forall|i: int|
                0 <= i < keys.len() ==> key_used(
                    items.deep_view(),
                    #[trigger] keys.deep_view()[i],
                ),
        decreases keys.len() - k,
    {
        let group = collect_group(items, &keys[k]);
        let ghost r0 = r@;
        r.push((keys[k].clone(), group));
        proof {
            assert(forall|i: int| 0 <= i < r0.len() ==> r@[i] == r0[i]);
            assert(r@[r0.len() as int].0@ == keys.deep_view()[k as int]);
            assert(r@[r0.len() as int].1.deep_view() == items_with_key(
                items.deep_view(),
                keys.deep_view()[k as int],
            ));
        }
        k += 1;
    }
    proof {
        assert forall|t: int| 0 <= t < items.len() implies key_reported(
            r@,
            (#[trigger] items.deep_view()[t]).key,
        ) by {
            assert(key_listed(keys.deep_view(), items.deep_view()[t].key));
            let i = choose|i: int|
                0 <= i < keys.deep_view().len() && keys.deep_view()[i] == items.deep_view()[
                    t
                ].key;
            assert(r@[i].0@ == items.deep_view()[t].key);
        }
        assert forall|i: int| 0 <= i < r.len() implies items_with_key(
            items.deep_view(),
            r@[i].0@,
        ).len() > 0 by {
            assert(key_used(items.deep_view(), keys.deep_view()[i]));
            let t = choose|t: int|
                0 <= t < items.deep_view().len() && items.deep_view()[t].key == keys.deep_view()[
                    i
                ];
            lemma_items_with_key_nonempty(items.deep_view(), t);
        }
    }
    r
}

} // verus!
