//! A map from a name to the handle of a mailbox that keeps the order in which
//! its entries came: the members of a channel by nickname, the channels of
//! the hub by channel name.

use vstd::prelude::*;

verus! {

/// One entry: its name and the handle of its mailbox.
#[derive(Debug)]
pub struct Entry<H> {
    pub name: String,
    pub sender: H,
}

/// `Entry` as values.
pub struct EntryView<H> {
    pub name: Seq<char>,
    pub sender: H,
}

impl<H> DeepView for Entry<H> {
    type V = EntryView<H>;

    open spec fn deep_view(&self) -> EntryView<H> {
        EntryView { name: self.name@, sender: self.sender }
    }
}

/// No name occurs twice.
pub open spec fn distinct<H>(es: Seq<EntryView<H>>) -> bool {
    forall|i: int, j: int|
        0 <= i < j < es.len() ==> (#[trigger] es[i]).name != (#[trigger] es[j]).name
}

/// Whether an entry is called `name`.
pub open spec fn includes<H>(es: Seq<EntryView<H>>, name: Seq<char>) -> bool {
    exists|i: int| 0 <= i < es.len() && (#[trigger] es[i]).name == name
}

/// The place of the first entry called `name`, or the number of entries if
/// there is none.
pub open spec fn position<H>(es: Seq<EntryView<H>>, name: Seq<char>) -> int
    decreases es.len(),
{
    if es.len() == 0 || es[0].name == name {
        0
    } else {
        1 + position(es.drop_first(), name)
    }
}

/// The entries without the one called `name`.
pub open spec fn without<H>(es: Seq<EntryView<H>>, name: Seq<char>) -> Seq<EntryView<H>> {
    if includes(es, name) {
        es.remove(position(es, name))
    } else {
        es
    }
}

/// The entries with `name` bound to `sender`: in the place that `name` has,
/// or at the end if it has none.
pub open spec fn put<H>(es: Seq<EntryView<H>>, name: Seq<char>, sender: H) -> Seq<EntryView<H>> {
    if includes(es, name) {
        es.update(position(es, name), EntryView { name, sender })
    } else {
        es.push(EntryView { name, sender })
    }
}

/// The entries but those called `name`.
pub open spec fn others<H>(es: Seq<EntryView<H>>, name: Seq<char>) -> Seq<EntryView<H>> {
    es.filter(|e: EntryView<H>| e.name != name)
}

/// The names, in the entries' order.
pub open spec fn names_of<H>(es: Seq<EntryView<H>>) -> Seq<Seq<char>> {
    Seq::new(es.len(), |i: int| es[i].name)
}

/// `position` is the first place that holds `name`, and a place that holds it
/// exists exactly when an entry is called `name`.
pub proof fn lemma_position<H>(es: Seq<EntryView<H>>, name: Seq<char>)
    ensures
        0 <= position(es, name) <= es.len(),
        includes(es, name) <==> position(es, name) < es.len(),
        position(es, name) < es.len() ==> es[position(es, name)].name == name,
        forall|i: int| 0 <= i < position(es, name) ==> (#[trigger] es[i]).name != name,
    decreases es.len(),
{
    if es.len() == 0 {
    } else if es[0].name == name {
    } else {
        let rest = es.drop_first();
        lemma_position(rest, name);
        let p = position(rest, name);
        assert forall|i: int| 0 <= i < p + 1 implies (#[trigger] es[i]).name != name by {
            if i > 0 {
                assert(es[i] == rest[i - 1]);
            }
        }
        if p < rest.len() {
            assert(es[p + 1] == rest[p]);
        }
        if includes(es, name) {
            let i = choose|i: int| 0 <= i < es.len() && (#[trigger] es[i]).name == name;
            assert(rest[i - 1] == es[i]);
        }
    }
}

/// Removing a name keeps the others distinct, takes the name away and
/// leaves every other entry in.
pub proof fn lemma_without<H>(es: Seq<EntryView<H>>, name: Seq<char>)
    requires
        distinct(es),
    ensures
        distinct(without(es, name)),
        !includes(without(es, name), name),
        forall|other: Seq<char>|
            other != name ==> (includes(without(es, name), other) <==> includes(es, other)),
        without(es, name).len() == if includes(es, name) {
            es.len() - 1
        } else {
            es.len() as int
        },
{
    lemma_position(es, name);
    let out = without(es, name);
    if includes(es, name) {
        let p = position(es, name);
        assert forall|i: int| 0 <= i < out.len() implies (#[trigger] out[i]).name != name by {
            if i < p {
                assert(out[i] == es[i]);
            } else {
                assert(out[i] == es[i + 1]);
            }
        }
        assert forall|other: Seq<char>| other != name implies (includes(out, other) <==> includes(
            es,
            other,
        )) by {
            if includes(out, other) {
                let i = choose|i: int| 0 <= i < out.len() && (#[trigger] out[i]).name == other;
                if i < p {
                    assert(es[i].name == other);
                } else {
                    assert(es[i + 1].name == other);
                }
            }
            if includes(es, other) {
                let i = choose|i: int| 0 <= i < es.len() && (#[trigger] es[i]).name == other;
                if i < p {
                    assert(out[i].name == other);
                } else {
                    assert(out[i - 1].name == other);
                }
            }
        }
    }
}

/// The entries but those called `name` are entries under other names, each
/// of them once and all of them.
pub proof fn lemma_others<H>(es: Seq<EntryView<H>>, name: Seq<char>)
    requires
        distinct(es),
    ensures
        distinct(others(es, name)),
        others(es, name).len() <= es.len(),
        forall|i: int|
            0 <= i < others(es, name).len() ==> (#[trigger] others(es, name)[i]).name != name
                && includes(es, others(es, name)[i].name),
        forall|other: Seq<char>|
            other != name && includes(es, other) ==> #[trigger] includes(others(es, name), other),
    decreases es.len(),
{
    reveal(Seq::filter);
    if es.len() > 0 {
        let rest = es.drop_last();
        let last = es.last();
        assert forall|i: int, j: int| 0 <= i < j < rest.len() implies (#[trigger] rest[i]).name != (
        #[trigger] rest[j]).name by {
            assert(rest[i] == es[i] && rest[j] == es[j]);
        }
        lemma_others(rest, name);
        let before = others(rest, name);
        let now = others(es, name);
        assert forall|i: int| 0 <= i < now.len() implies (#[trigger] now[i]).name != name
            && includes(es, now[i].name) by {
            if i < before.len() {
                assert(now[i] == before[i]);
                let k = choose|k: int|
                    0 <= k < rest.len() && (#[trigger] rest[k]).name == before[i].name;
                assert(es[k].name == now[i].name);
            } else {
                assert(now[i] == last);
                assert(es[es.len() - 1].name == now[i].name);
            }
        }
        assert forall|other: Seq<char>| other != name && includes(es, other) implies #[trigger]
        includes(now, other) by {
            let k = choose|k: int| 0 <= k < es.len() && (#[trigger] es[k]).name == other;
            if k < rest.len() {
                assert(rest[k].name == other);
                assert(includes(before, other));
                let q = choose|q: int|
                    0 <= q < before.len() && (#[trigger] before[q]).name == other;
                assert(now[q].name == other);
            } else {
                assert(now[now.len() - 1].name == other);
            }
        }
        assert forall|i: int, j: int| 0 <= i < j < now.len() implies (#[trigger] now[i]).name != (
        #[trigger] now[j]).name by {
            if j < before.len() {
                assert(now[i] == before[i] && now[j] == before[j]);
            } else {
                assert(now[i] == before[i]);
                let k = choose|k: int|
                    0 <= k < rest.len() && (#[trigger] rest[k]).name == before[i].name;
                assert(es[k].name == before[i].name);
                assert(es[es.len() - 1] == last);
            }
        }
    }
}

/// Through one more entry, `others` grows by that entry unless it is called
/// `name`.
pub proof fn lemma_others_step<H>(es: Seq<EntryView<H>>, name: Seq<char>, i: int)
    requires
        0 <= i < es.len(),
    ensures
        others(es.take(i + 1), name) == if es[i].name != name {
            others(es.take(i), name).push(es[i])
        } else {
            others(es.take(i), name)
        },
{
    reveal(Seq::filter);
    assert(es.take(i + 1).drop_last() =~= es.take(i));
}

/// Of no entries there are no others.
pub proof fn lemma_others_none<H>(es: Seq<EntryView<H>>, name: Seq<char>)
    ensures
        others(es.take(0), name) == Seq::<EntryView<H>>::empty(),
{
    reveal(Seq::filter);
    assert(es.take(0) =~= Seq::empty());
}

/// A map from name to mailbox handle, in the order of arrival.
#[derive(Debug)]
pub struct Directory<H> {
    entries: Vec<Entry<H>>,
}

impl<H> View for Directory<H> {
    type V = Seq<EntryView<H>>;

    closed spec fn view(&self) -> Seq<EntryView<H>> {
        self.entries.deep_view()
    }
}

impl<H> Directory<H> {
    /// What every directory keeps: no name occurs twice.
    pub open spec fn wf(&self) -> bool {
        distinct(self@)
    }

    /// A directory without entries.
    pub fn new() -> (r: Directory<H>)
        ensures
            r.wf(),
            r@ == Seq::<EntryView<H>>::empty(),
    {
        let r = Directory { entries: Vec::new() };
        assert(r.entries.deep_view() =~= Seq::empty());
        r
    }

    /// The number of entries.
    pub fn len(&self) -> (n: usize)
        ensures
            n == self@.len(),
    {
        self.entries.len()
    }

    /// The place of the entry called `name`.
    pub fn find(&self, name: &String) -> (r: Option<usize>)
        ensures
            r is Some <==> includes(self@, name@),
            r matches Some(i) ==> i == position(self@, name@) && i < self@.len(),
    {
        assert(self@.len() == self.entries.len());
        let mut i: usize = 0;
        while i < self.entries.len()
            invariant
                i <= self.entries.len(),
                forall|k: int| 0 <= k < i ==> (#[trigger] self@[k]).name != name@,
            decreases self.entries.len() - i,
        {
            if self.entries[i].name == *name {
                proof {
                    lemma_position(self@, name@);
                    assert(self@[i as int].name == name@);
                }
                return Some(i);
            }
            i += 1;
        }
        None
    }

    /// Whether an entry is called `name`.
    pub fn contains(&self, name: &String) -> (r: bool)
        ensures
            r == includes(self@, name@),
    {
        self.find(name).is_some()
    }

    /// The mailbox of the entry called `name`.
    pub fn get(&self, name: &String) -> (r: Option<&H>)
        ensures
            r is Some <==> includes(self@, name@),
            r matches Some(sender) ==> *sender == self@[position(self@, name@)].sender,
    {
        assert(self@.len() == self.entries.len());
        match self.find(name) {
            Some(i) => Some(&self.entries[i].sender),
            None => None,
        }
    }

    /// Adds an entry at the end. Where an entry is called `name` already, its
    /// mailbox is replaced and the old one returned.
    pub fn insert(&mut self, name: String, sender: H) -> (r: Option<H>)
        requires
            old(self).wf(),
        ensures
            final(self).wf(),
            final(self)@ == put(old(self)@, name@, sender),
            r == if includes(old(self)@, name@) {
                Some(old(self)@[position(old(self)@, name@)].sender)
            } else {
                None
            },
    {
        proof {
            lemma_position(self@, name@);
        }
        let ghost before = self.entries.deep_view();
        let ghost entry = EntryView { name: name@, sender };
        assert(self@.len() == self.entries.len());
        match self.find(&name) {
            Some(i) => {
                let m = self.entries.remove(i);
                proof {
                    assert(self.entries.deep_view() =~= before.remove(i as int));
                    lemma_without(before, name@);
                }
                self.entries.insert(i, Entry { name, sender });
                proof {
                    let now = self.entries.deep_view();
                    assert(now =~= before.update(i as int, entry));
                    assert forall|a: int, b: int| 0 <= a < b < now.len() implies (
                    #[trigger] now[a]).name != (#[trigger] now[b]).name by {
                        assert(now[a].name == before[a].name);
                        assert(now[b].name == before[b].name);
                    }
                }
                Some(m.sender)
            },
            None => {
                self.entries.push(Entry { name, sender });
                proof {
                    let now = self.entries.deep_view();
                    assert(now =~= before.push(entry));
                    assert forall|a: int, b: int| 0 <= a < b < now.len() implies (
                    #[trigger] now[a]).name != (#[trigger] now[b]).name by {
                        if b == before.len() {
                            assert(before[a].name != name@);
                        } else {
                            assert(now[a] == before[a]);
                            assert(now[b] == before[b]);
                        }
                    }
                }
                None
            },
        }
    }

    /// Takes out the entry called `name` and returns its mailbox.
    pub fn remove(&mut self, name: &String) -> (r: Option<H>)
        requires
            old(self).wf(),
        ensures
            final(self).wf(),
            final(self)@ == without(old(self)@, name@),
            r is Some <==> includes(old(self)@, name@),
            r matches Some(sender) ==> sender == old(self)@[position(old(self)@, name@)].sender,
    {
        assert(self@.len() == self.entries.len());
        match self.find(name) {
            Some(i) => {
                let ghost before = self.entries.deep_view();
                let m = self.entries.remove(i);
                proof {
                    assert(self.entries.deep_view() =~= before.remove(i as int));
                    lemma_without(before, name@);
                }
                Some(m.sender)
            },
            None => None,
        }
    }

    /// The names, in the entries' order.
    pub fn names(&self) -> (r: Vec<String>)
        ensures
            r.deep_view() == names_of(self@),
    {
        let mut r: Vec<String> = Vec::new();
        let mut i: usize = 0;
        while i < self.entries.len()
            invariant
                i <= self.entries.len(),
                r.len() == i,
                forall|k: int| 0 <= k < i ==> (#[trigger] r[k])@ == self@[k].name,
            decreases self.entries.len() - i,
        {
            r.push(self.entries[i].name.clone());
            i += 1;
        }
        assert(r.deep_view() =~= names_of(self@));
        r
    }
}

} // verus!
