use vstd::prelude::*;
use vstd::string::*;
use crate::record::{
    basics_view, fields_view, fresh_view, Attrs, DataType, Entry, EntryView, Fields,
};
use crate::text::{
    lemma_lex_irreflexive, lemma_lex_total, lemma_lex_transitive, lemma_sorted_unique, lex_lt, sorted_of,
    str_lt, strictly_sorted, strs,
};

verus! {

/// The records of one analysis run, keyed by qualified identifier and kept in
/// ascending order of identifier.
pub struct Collection {
    ids: Vec<String>,
    entries: Vec<Entry>,
}

/// A record with every fact false, no field references, and the given kind.
pub open spec fn is_fresh(e: Entry, kind: DataType) -> bool {
    &&& e.kind == kind
    &&& !e.public && !e.serialize && !e.deserialize && !e.serde_from && !e.serde_into
    &&& !e.serializer && !e.deserializer && !e.serde_custom_field
    &&& e.fields@.len() == 0
}

/// `new` is the record as it stands right after `spawn_entry`: a fresh one where none
/// was; else the one there, whose `Unknown` kind, if any, becomes the kind given.
pub open spec fn spawned(old: Option<Entry>, kind: DataType, new: Entry) -> bool {
    match old {
        Some(e) => new == if e.kind == DataType::Unknown {
            Entry { kind, ..e }
        } else {
            e
        },
        None => is_fresh(new, kind),
    }
}

/// The record of `k` in `m`, if there is one.
pub open spec fn entry_of(m: Map<Seq<char>, EntryView>, k: Seq<char>) -> Option<EntryView> {
    if m.contains_key(k) {
        Some(m[k])
    } else {
        None
    }
}

/// The record after `spawn_entry`: a fresh one where none was; else the one there,
/// whose `Unknown` kind, if any, becomes the kind given.
pub open spec fn spawn_view(old: Option<EntryView>, kind: DataType) -> EntryView {
    match old {
        Some(e) => if e.kind == DataType::Unknown {
            EntryView { kind, ..e }
        } else {
            e
        },
        None => fresh_view(kind),
    }
}

/// What a source file declares, as far as the registry needs it.
#[derive(Debug)]
pub enum Item {
    Enum { ident: String, public: bool, attrs: Attrs, variants: Vec<Fields> },
    Struct { ident: String, public: bool, attrs: Attrs, fields: Fields },
    /// `impl <trait_name> for <self_name>`: the last type name of each, where there is one.
    Impl { trait_name: Option<String>, self_name: Option<String> },
    Other,
}

/// `prefix::ident`
pub open spec fn qualified(prefix: Seq<char>, ident: Seq<char>) -> Seq<char> {
    prefix + "::"@ + ident
}

/// A record after the fields of each variant in turn.
pub open spec fn variants_view(e: EntryView, vs: Seq<Fields>) -> EntryView
    decreases vs.len(),
{
    if vs.len() == 0 {
        e
    } else {
        let p = variants_view(e, vs.drop_last());
        fields_view(p, vs.last().serde_attr, vs.last().type_lists())
    }
}

/// The registry after one declaration of the file whose identifiers start with `prefix`.
pub open spec fn item_applied(m: Map<Seq<char>, EntryView>, item: Item, prefix: Seq<char>) -> Map<
    Seq<char>,
    EntryView,
> {
    match item {
        Item::Enum { ident, public, attrs, variants } => {
            let id = qualified(prefix, ident@);
            let e = basics_view(spawn_view(entry_of(m, id), DataType::Enum), public, attrs);
            m.insert(id, variants_view(e, variants@))
        },
        Item::Struct { ident, public, attrs, fields } => {
            let id = qualified(prefix, ident@);
            let e = basics_view(spawn_view(entry_of(m, id), DataType::Struct), public, attrs);
            m.insert(id, fields_view(e, fields.serde_attr, fields.type_lists()))
        },
        Item::Impl { trait_name: Some(t), self_name: Some(n) } => {
            let id = qualified(prefix, n@);
            let e = spawn_view(entry_of(m, id), DataType::Unknown);
            if t@ == "Deserialize"@ {
                m.insert(id, EntryView { deserializer: true, ..e })
            } else if t@ == "Serialize"@ {
                m.insert(id, EntryView { serializer: true, ..e })
            } else {
                m
            }
        },
        _ => m,
    }
}

/// The registry after each declaration in turn.
pub open spec fn items_applied(m: Map<Seq<char>, EntryView>, items: Seq<Item>, prefix: Seq<char>) -> Map<
    Seq<char>,
    EntryView,
>
    decreases items.len(),
{
    if items.len() == 0 {
        m
    } else {
        item_applied(items_applied(m, items.drop_last(), prefix), items.last(), prefix)
    }
}

/// `prefix::ident`
pub fn qualify(prefix: &str, ident: &str) -> (r: String)
    ensures
        r@ == qualified(prefix@, ident@),
{
    let mut r = prefix.to_owned();
    r.append("::");
    r.append(ident);
    r
}

/// A public record has its real kind: `Unknown` only stands for types seen so far
/// through an implementation block alone.
pub open spec fn known_if_public(e: EntryView) -> bool {
    e.public ==> e.kind != DataType::Unknown
}

/// The identifiers of a registry in ascending order.
pub open spec fn sorted_keys<V>(m: Map<Seq<char>, V>) -> Seq<Seq<char>> {
    sorted_of(m.dom())
}

impl View for Collection {
    type V = Map<Seq<char>, EntryView>;

    closed spec fn view(&self) -> Map<Seq<char>, EntryView> {
        Map::new(|k: Seq<char>| self.keys().contains(k), |k: Seq<char>| self.records()[self.index_of(k)]@)
    }
}

impl Collection {
    pub closed spec fn keys(&self) -> Seq<Seq<char>> {
        strs(self.ids@)
    }

    pub closed spec fn records(&self) -> Seq<Entry> {
        self.entries@
    }

    pub closed spec fn wf(&self) -> bool {
        &&& self.ids@.len() == self.entries@.len()
        &&& forall|i: int, j: int|
            0 <= i < j < self.ids@.len() ==> lex_lt(#[trigger] self.keys()[i], #[trigger] self.keys()[j])
        &&& forall|i: int| 0 <= i < self.entries@.len() ==> (#[trigger] self.entries@[i]).wf()
        &&& forall|i: int| 0 <= i < self.entries@.len() ==> known_if_public(#[trigger] self.entries@[i]@)
    }

    /// Position of a present identifier.
    pub open spec fn index_of(&self, id: Seq<char>) -> int {
        choose|i: int| 0 <= i < self.keys().len() && self.keys()[i] == id
    }

    /// The record of a present identifier.
    pub open spec fn lookup(&self, id: Seq<char>) -> Option<Entry> {
        if self.keys().contains(id) {
            Some(self.records()[self.index_of(id)])
        } else {
            None
        }
    }

    pub proof fn lemma_index_of(&self, i: int)
        requires
            self.wf(),
            0 <= i < self.keys().len(),
        ensures
            self.index_of(self.keys()[i]) == i,
            self.lookup(self.keys()[i]) == Some(self.records()[i]),
    {
        let k = self.keys()[i];
        assert(self.keys().contains(k));
        let j = self.index_of(k);
        if j != i {
            lemma_lex_irreflexive(k);
            if j < i {
                assert(lex_lt(self.keys()[j], self.keys()[i]));
            } else {
                assert(lex_lt(self.keys()[i], self.keys()[j]));
            }
        }
    }

    proof fn lemma_view_update(&self, old_self: &Collection, id: Seq<char>, new_type: DataType, pos: int)
        requires
            self.wf(),
            old_self.wf(),
            0 <= pos < self.keys().len(),
            self.keys()[pos] == id,
            spawned(old_self.lookup(id), new_type, self.records()[pos]),
            self.keys().to_set() == old_self.keys().to_set().insert(id),
            forall|k: Seq<char>| k != id ==> #[trigger] self.lookup(k) == old_self.lookup(k),
        ensures
            self@ == old_self@.insert(id, spawn_view(entry_of(old_self@, id), new_type)),
    {
        self.lemma_index_of(pos);
        let m = old_self@.insert(id, spawn_view(entry_of(old_self@, id), new_type));
        assert forall|k: Seq<char>| self@.contains_key(k) <==> m.contains_key(k) by {
            assert(self.keys().to_set().contains(k) <==> self.keys().contains(k));
            assert(old_self.keys().to_set().contains(k) <==> old_self.keys().contains(k));
        }
        assert forall|k: Seq<char>| #[trigger] self@.contains_key(k) implies self@[k] == m[k] by {
            if k != id {
                assert(self.lookup(k) == old_self.lookup(k));
                assert(old_self.keys().to_set().contains(k) <==> old_self.keys().contains(k));
            } else {
                let e = self.records()[pos];
                assert(self@[k] == e@);
                if old_self.keys().contains(id) {
                    assert(old_self@.contains_key(id));
                    assert(old_self@[id] == old_self.lookup(id).unwrap()@);
                } else {
                    assert(!old_self@.contains_key(id));
                    assert(e@.refs =~= Seq::<Seq<char>>::empty());
                }
            }
        }
        assert(self@ =~= m);
    }

    /// Puts `e` at position `i` and hands back the record that stood there.
    fn replace_at(&mut self, i: usize, e: Entry) -> (r: Entry)
        requires
            old(self).wf(),
            i < old(self).keys().len(),
            e.wf(),
            known_if_public(e@),
        ensures
            final(self).wf(),
            final(self).keys() == old(self).keys(),
            r == old(self).records()[i as int],
            final(self)@ == old(self)@.insert(old(self).keys()[i as int], e@),
    {
        let ghost old_self = *self;
        let ghost id = self.keys()[i as int];
        let r = self.entries.remove(i);
        self.entries.insert(i, e);
        proof {
            assert(self.entries@ =~= old_self.entries@.update(i as int, e));
            self.lemma_index_of(i as int);
            let m = old_self@.insert(id, e@);
            assert forall|k: Seq<char>| self@.contains_key(k) <==> m.contains_key(k) by {}
            assert forall|k: Seq<char>| #[trigger] self@.contains_key(k) implies self@[k] == m[k] by {
                if k != id {
                    let j = choose|j: int| 0 <= j < self.keys().len() && self.keys()[j] == k;
                    self.lemma_index_of(j);
                    old_self.lemma_index_of(j);
                }
            }
            assert(self@ =~= m);
        }
        r
    }

    /// Enters an enum declaration.
    fn add_enum(&mut self, id: &String, public: bool, attrs: &Attrs, variants: &Vec<Fields>)
        requires
            old(self).wf(),
        ensures
            final(self).wf(),
            final(self)@ == old(self)@.insert(
                id@,
                variants_view(
                    basics_view(spawn_view(entry_of(old(self)@, id@), DataType::Enum), public, *attrs),
                    variants@,
                ),
            ),
    {
        let i = self.spawn_entry(id.as_str(), DataType::Enum);
        let ghost m1 = self@;
        proof {
            self.lemma_view_at(i as int);
        }
        let mut e = self.replace_at(i, Entry::new(DataType::Unknown));
        e.complete_basics(public, attrs);
        let ghost e1 = e@;
        let mut k: usize = 0;
        while k < variants.len()
            invariant
                k <= variants@.len(),
                e.wf(),
                e.kind != DataType::Unknown,
                e@ == variants_view(e1, variants@.subrange(0, k as int)),
            decreases variants@.len() - k,
        {
            assert(variants@.subrange(0, k + 1).drop_last() =~= variants@.subrange(0, k as int));
            e.complete_fields(&variants[k]);
            assert(e.kind != DataType::Unknown);
            k = k + 1;
        }
        assert(variants@.subrange(0, variants@.len() as int) =~= variants@);
        self.replace_at(i, e);
        proof {
            assert(m1.insert(id@, fresh_view(DataType::Unknown)).insert(id@, e@) =~= m1.insert(id@, e@));
        }
    }

    /// Enters a struct declaration.
    fn add_struct(&mut self, id: &String, public: bool, attrs: &Attrs, fields: &Fields)
        requires
            old(self).wf(),
        ensures
            final(self).wf(),
            final(self)@ == old(self)@.insert(
                id@,
                fields_view(
                    basics_view(spawn_view(entry_of(old(self)@, id@), DataType::Struct), public, *attrs),
                    fields.serde_attr,
                    fields.type_lists(),
                ),
            ),
    {
        let i = self.spawn_entry(id.as_str(), DataType::Struct);
        let ghost m1 = self@;
        proof {
            self.lemma_view_at(i as int);
        }
        let mut e = self.replace_at(i, Entry::new(DataType::Unknown));
        e.complete_basics(public, attrs);
        e.complete_fields(fields);
        self.replace_at(i, e);
        proof {
            assert(m1.insert(id@, fresh_view(DataType::Unknown)).insert(id@, e@) =~= m1.insert(id@, e@));
        }
    }

    /// Marks a hand-written `Deserialize` (or else `Serialize`) impl of `id`.
    fn add_impl(&mut self, id: &String, deser: bool)
        requires
            old(self).wf(),
        ensures
            final(self).wf(),
            final(self)@ == old(self)@.insert(
                id@,
                if deser {
                    EntryView {
                        deserializer: true,
                        ..spawn_view(entry_of(old(self)@, id@), DataType::Unknown)
                    }
                } else {
                    EntryView {
                        serializer: true,
                        ..spawn_view(entry_of(old(self)@, id@), DataType::Unknown)
                    }
                },
            ),
    {
        let i = self.spawn_entry(id.as_str(), DataType::Unknown);
        let ghost m1 = self@;
        proof {
            self.lemma_view_at(i as int);
        }
        let mut e = self.replace_at(i, Entry::new(DataType::Unknown));
        if deser {
            e.deserializer = true;
        } else {
            e.serializer = true;
        }
        self.replace_at(i, e);
        proof {
            assert(m1.insert(id@, fresh_view(DataType::Unknown)).insert(id@, e@) =~= m1.insert(id@, e@));
        }
    }

    /// Enters one declaration of the file whose identifiers start with `id_prefix`.
    fn add_item(&mut self, item: &Item, id_prefix: &str)
        requires
            old(self).wf(),
        ensures
            final(self).wf(),
            final(self)@ == item_applied(old(self)@, *item, id_prefix@),
    {
        match item {
            Item::Enum { ident, public, attrs, variants } => {
                let id = qualify(id_prefix, ident.as_str());
                self.add_enum(&id, *public, attrs, variants);
            },
            Item::Struct { ident, public, attrs, fields } => {
                let id = qualify(id_prefix, ident.as_str());
                self.add_struct(&id, *public, attrs, fields);
            },
            Item::Impl { trait_name: Some(t), self_name: Some(n) } => {
                let deser = *t == String::from_str("Deserialize");
                let ser = *t == String::from_str("Serialize");
                if deser || ser {
                    let id = qualify(id_prefix, n.as_str());
                    self.add_impl(&id, deser);
                }
            },
            _ => {},
        }
    }

    /// Enters the declarations of one source file; `id_prefix` is the file's path
    /// relative to the source root, without extension.
    pub fn add_items(&mut self, items: Vec<Item>, id_prefix: &str)
        requires
            old(self).wf(),
        ensures
            final(self).wf(),
            final(self)@ == items_applied(old(self)@, items@, id_prefix@),
    {
        let mut i: usize = 0;
        while i < items.len()
            invariant
                self.wf(),
                i <= items@.len(),
                self@ == items_applied(old(self)@, items@.subrange(0, i as int), id_prefix@),
            decreases items@.len() - i,
        {
            assert(items@.subrange(0, i + 1).drop_last() =~= items@.subrange(0, i as int));
            self.add_item(&items[i], id_prefix);
            i = i + 1;
        }
        assert(items@.subrange(0, items@.len() as int) =~= items@);
    }

    /// The record at a position is the one that the view gives for its identifier.
    pub proof fn lemma_view_at(&self, i: int)
        requires
            self.wf(),
            0 <= i < self.keys().len(),
        ensures
            self@.contains_key(self.keys()[i]),
            self@[self.keys()[i]] == self.records()[i]@,
    {
        self.lemma_index_of(i);
        assert(self.keys().contains(self.keys()[i]));
    }

    /// Whether `id` has a record.
    pub fn contains_key(&self, id: &str) -> (r: bool)
        requires
            self.wf(),
        ensures
            r == self@.contains_key(id@),
    {
        let pos = self.find_slot(id);
        let owned = id.to_owned();
        if pos < self.ids.len() && self.ids[pos] == owned {
            proof {
                self.lemma_view_at(pos as int);
            }
            true
        } else {
            proof {
                if self.keys().contains(id@) {
                    let j = choose|j: int| 0 <= j < self.keys().len() && self.keys()[j] == id@;
                    lemma_lex_irreflexive(id@);
                    if j > pos {
                        lemma_lex_total(self.keys()[pos as int], id@);
                        assert(lex_lt(self.keys()[pos as int], self.keys()[j]));
                        lemma_lex_transitive(id@, self.keys()[pos as int], id@);
                    }
                }
            }
            false
        }
    }

    /// The positions of a registry follow the ascending order of its identifiers.
    pub proof fn lemma_keys_sorted(&self)
        requires
            self.wf(),
        ensures
            self.keys() == sorted_keys(self@),
            strictly_sorted(sorted_keys(self@)),
            sorted_keys(self@).to_set() == self@.dom(),
            self.keys().len() == self.records().len(),
            forall|i: int| 0 <= i < self.records().len() ==> (#[trigger] self.records()[i]).wf(),
    {
        assert(self.keys().to_set() =~= self@.dom());
        let s = sorted_keys(self@);
        assert(strictly_sorted(self.keys()));
        lemma_sorted_unique(s, self.keys());
    }

    /// The record of `id`, if any.
    pub fn get(&self, id: &str) -> (r: Option<&Entry>)
        requires
            self.wf(),
        ensures
            match r {
                Some(e) => self@.contains_key(id@) && e@ == self@[id@],
                None => !self@.contains_key(id@),
            },
    {
        if !self.contains_key(id) {
            return None;
        }
        let pos = self.find_slot(id);
        proof {
            let j = choose|j: int| 0 <= j < self.keys().len() && self.keys()[j] == id@;
            self.lemma_view_at(j);
            lemma_lex_irreflexive(id@);
            if j < pos {
                assert(lex_lt(self.keys()[j], id@));
            } else if j > pos {
                lemma_lex_total(self.keys()[pos as int], id@);
                assert(lex_lt(self.keys()[pos as int], self.keys()[j]));
                lemma_lex_transitive(id@, self.keys()[pos as int], id@);
            }
        }
        Some(&self.entries[pos])
    }

    /// No public record of a registry is of `Unknown` kind.
    pub proof fn lemma_public_known(&self)
        requires
            self.wf(),
        ensures
            forall|k: Seq<char>| #[trigger] self@.contains_key(k) ==> known_if_public(self@[k]),
    {
        assert forall|k: Seq<char>| #[trigger] self@.contains_key(k) implies known_if_public(self@[k]) by {
            let j = choose|j: int| 0 <= j < self.keys().len() && self.keys()[j] == k;
            self.lemma_view_at(j);
        }
    }

    /// An empty collection.
    pub fn new() -> (r: Self)
        ensures
            r.wf(),
            r@ == Map::<Seq<char>, EntryView>::empty(),
    {
        let r = Collection { ids: Vec::new(), entries: Vec::new() };
        assert(r@ =~= Map::<Seq<char>, EntryView>::empty());
        r
    }

    /// Number of records.
    pub fn len(&self) -> (r: usize)
        requires
            self.wf(),
        ensures
            r == sorted_keys(self@).len(),
    {
        proof {
            self.lemma_keys_sorted();
        }
        self.ids.len()
    }

    /// The identifier at position `i`.
    pub fn id_at(&self, i: usize) -> (r: &String)
        requires
            self.wf(),
            i < sorted_keys(self@).len(),
        ensures
            r@ == sorted_keys(self@)[i as int],
    {
        proof {
            self.lemma_keys_sorted();
        }
        &self.ids[i]
    }

    /// The record at position `i`.
    pub fn entry_at(&self, i: usize) -> (r: &Entry)
        requires
            self.wf(),
            i < sorted_keys(self@).len(),
        ensures
            r@ == self@[sorted_keys(self@)[i as int]],
    {
        proof {
            self.lemma_keys_sorted();
            self.lemma_view_at(i as int);
        }
        &self.entries[i]
    }

    /// Position of the first identifier not below `id`.
    fn find_slot(&self, id: &str) -> (r: usize)
        requires
            self.wf(),
        ensures
            r <= self.keys().len(),
            forall|i: int| 0 <= i < r ==> lex_lt(#[trigger] self.keys()[i], id@),
            r < self.keys().len() ==> !lex_lt(self.keys()[r as int], id@),
    {
        let mut i: usize = 0;
        while i < self.ids.len()
            invariant
                self.wf(),
                i <= self.keys().len(),
                forall|k: int| 0 <= k < i ==> lex_lt(#[trigger] self.keys()[k], id@),
            decreases self.keys().len() - i,
        {
            if !str_lt(self.ids[i].as_str(), id) {
                return i;
            }
            i = i + 1;
        }
        i
    }

    /// Finds the record of `id`, creating it with kind `new_type` when absent; a record
    /// still of `Unknown` kind takes `new_type`. Returns its position.
    pub fn spawn_entry(&mut self, id: &str, new_type: DataType) -> (r: usize)
        requires
            old(self).wf(),
        ensures
            final(self).wf(),
            r < final(self).keys().len(),
            final(self).keys()[r as int] == id@,
            spawned(old(self).lookup(id@), new_type, final(self).records()[r as int]),
            final(self)@ == old(self)@.insert(id@, spawn_view(entry_of(old(self)@, id@), new_type)),
            final(self).keys().to_set() == old(self).keys().to_set().insert(id@),
            forall|k: Seq<char>| k != id@ ==> #[trigger] final(self).lookup(k) == old(self).lookup(k),
    {
        let pos = self.find_slot(id);
        let owned = id.to_owned();
        let ghost old_self = *self;
        if pos < self.ids.len() && self.ids[pos] == owned {
            proof {
                old_self.lemma_index_of(pos as int);
            }
            let mut e = self.entries.remove(pos);
            if e.kind == DataType::Unknown {
                e.kind = new_type;
            }
            self.entries.insert(pos, e);
            proof {
                assert(self.entries@ =~= old_self.entries@.update(pos as int, e));
                assert forall|k: Seq<char>| k != id@ implies #[trigger] self.lookup(k) == old_self.lookup(k) by {
                    if self.keys().contains(k) {
                        let j = choose|j: int| 0 <= j < self.keys().len() && self.keys()[j] == k;
                        self.lemma_index_of(j);
                        old_self.lemma_index_of(j);
                    }
                }
                assert(self.keys().to_set() =~= old_self.keys().to_set().insert(id@));
            }
            proof {
                self.lemma_view_update(&old_self, id@, new_type, pos as int);
            }
            pos
        } else {
            proof {
                if pos < self.ids.len() {
                    lemma_lex_total(self.keys()[pos as int], id@);
                    assert(lex_lt(id@, self.keys()[pos as int]));
                }
            }
            let e = Entry::new(new_type);
            self.ids.insert(pos, owned);
            self.entries.insert(pos, e);
            proof {
                assert(self.keys() =~= old_self.keys().insert(pos as int, id@));
                assert(!old_self.keys().contains(id@)) by {
                    if old_self.keys().contains(id@) {
                        let j = choose|j: int| 0 <= j < old_self.keys().len() && old_self.keys()[j] == id@;
                        lemma_lex_irreflexive(id@);
                        if j >= pos {
                            if j > pos {
                                assert(lex_lt(old_self.keys()[pos as int], old_self.keys()[j]));
                                lemma_lex_total(old_self.keys()[pos as int], id@);
                                lemma_lex_transitive(id@, old_self.keys()[pos as int], id@);
                            }
                        }
                    }
                }
                assert forall|i: int, j: int|
                    0 <= i < j < self.ids@.len() implies lex_lt(#[trigger] self.keys()[i], #[trigger] self.keys()[j]) by {
                    if j > pos {
                        if j - 1 > pos {
                            lemma_lex_transitive(id@, old_self.keys()[pos as int], old_self.keys()[j - 1]);
                        }
                        assert(lex_lt(id@, self.keys()[j]));
                    }
                    if i < pos && j > pos {
                        lemma_lex_transitive(self.keys()[i], id@, self.keys()[j]);
                    }
                }
                assert(spawned(old_self.lookup(id@), new_type, self.records()[pos as int]));
                assert forall|k: Seq<char>| k != id@ implies #[trigger] self.lookup(k) == old_self.lookup(k) by {
                    if self.keys().contains(k) {
                        let j = choose|j: int| 0 <= j < self.keys().len() && self.keys()[j] == k;
                        self.lemma_index_of(j);
                        if j < pos {
                            old_self.lemma_index_of(j);
                        } else {
                            old_self.lemma_index_of(j - 1);
                        }
                    }
                    if old_self.keys().contains(k) {
                        let j = choose|j: int| 0 <= j < old_self.keys().len() && old_self.keys()[j] == k;
                        if j < pos {
                            assert(self.keys()[j] == k);
                        } else {
                            assert(self.keys()[j + 1] == k);
                        }
                    }
                }
                assert forall|x: Seq<char>| self.keys().contains(x) <==> (old_self.keys().contains(x) || x == id@) by {
                    if self.keys().contains(x) {
                        let j = choose|j: int| 0 <= j < self.keys().len() && self.keys()[j] == x;
                        if j < pos {
                            assert(old_self.keys()[j] == x);
                        } else if j > pos {
                            assert(old_self.keys()[j - 1] == x);
                        }
                    }
                    if old_self.keys().contains(x) {
                        let j = choose|j: int| 0 <= j < old_self.keys().len() && old_self.keys()[j] == x;
                        if j < pos {
                            assert(self.keys()[j] == x);
                        } else {
                            assert(self.keys()[j + 1] == x);
                        }
                    }
                    if x == id@ {
                        assert(self.keys()[pos as int] == x);
                    }
                }
                assert(self.keys().to_set() =~= old_self.keys().to_set().insert(id@));
            }
            proof {
                self.lemma_view_update(&old_self, id@, new_type, pos as int);
            }
            pos
        }
    }
}

} // verus!
