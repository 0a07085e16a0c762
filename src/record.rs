use vstd::prelude::*;
use vstd::string::*;
use crate::text::{contains_str, strs};

verus! {

/// What kind of declaration a record stands for.
#[derive(Debug, Clone, Copy, PartialEq, Eq, Structural)]
pub enum DataType {
    Enum,
    Struct,
    /// Placeholder for a type seen only through an implementation block so far.
    Unknown,
}

impl DataType {
    pub open spec fn shape_name(self) -> Seq<char> {
        match self {
            DataType::Enum => "ellipse"@,
            DataType::Struct => "rectangle"@,
            DataType::Unknown => "rhombus"@,
        }
    }

    /// The diagram shape used for this kind of declaration.
    pub fn to_string(&self) -> (r: String)
        ensures
            r@ == self.shape_name(),
    {
        match self {
            DataType::Enum => String::from_str("ellipse"),
            DataType::Struct => String::from_str("rectangle"),
            DataType::Unknown => String::from_str("rhombus"),
        }
    }
}

/// Serialization category of a type.
#[derive(Debug, Clone, Copy, PartialEq, Eq, Structural)]
pub enum Color {
    /// Invalid combination of features
    Red,
    /// No serialization
    White,
    /// Default derive
    Green,
    /// Asymmetric serialization with default derive
    GreenGradient,
    /// Custom implementation
    Yellow,
    /// Asymmetric serialization with custom implementation
    YellowGradient,
    /// Conversion through a raw type
    Blue,
    /// Asymmetric serialization through a raw type
    BlueGradient,
}

impl Color {
    pub open spec fn style_name(self) -> Seq<char> {
        match self {
            Color::Red => "red"@,
            Color::White => "white"@,
            Color::Green => "green"@,
            Color::GreenGradient => "green_gradient"@,
            Color::Yellow => "yellow"@,
            Color::YellowGradient => "yellow_gradient"@,
            Color::Blue => "blue"@,
            Color::BlueGradient => "blue_gradient"@,
        }
    }

    pub open spec fn is_gradient(self) -> bool {
        self == Color::GreenGradient || self == Color::YellowGradient || self
            == Color::BlueGradient
    }

    /// Green and GreenGradient: links from such a type are strong.
    pub open spec fn is_green(self) -> bool {
        self == Color::Green || self == Color::GreenGradient
    }

    /// The style name of the category in the diagram.
    pub fn to_string(&self) -> (r: String)
        ensures
            r@ == self.style_name(),
    {
        match self {
            Color::Red => String::from_str("red"),
            Color::White => String::from_str("white"),
            Color::Green => String::from_str("green"),
            Color::GreenGradient => String::from_str("green_gradient"),
            Color::Yellow => String::from_str("yellow"),
            Color::YellowGradient => String::from_str("yellow_gradient"),
            Color::Blue => String::from_str("blue"),
            Color::BlueGradient => String::from_str("blue_gradient"),
        }
    }

    /// True for Green and GreenGradient.
    pub fn is_strong(&self) -> (r: bool)
        ensures
            r == self.is_green(),
    {
        match self {
            Color::Green | Color::GreenGradient => true,
            _ => false,
        }
    }
}

/// Either derive is present.
pub open spec fn derived(ser: bool, de: bool) -> bool {
    ser || de
}

/// A `from`/`try_from` or `into` conversion is declared.
pub open spec fn converted(from: bool, into: bool) -> bool {
    from || into
}

/// A hand-written serializer or deserializer exists.
pub open spec fn custom(ser_impl: bool, de_impl: bool) -> bool {
    ser_impl || de_impl
}

/// Serialization and deserialization differ within one of the three mechanisms.
pub open spec fn asymmetric(
    ser: bool,
    de: bool,
    from: bool,
    into: bool,
    ser_impl: bool,
    de_impl: bool,
) -> bool {
    ser != de || from != into || ser_impl != de_impl
}

/// Derivation beside a hand-written impl, or a conversion without derivation.
pub open spec fn invalid_combination(
    ser: bool,
    de: bool,
    from: bool,
    into: bool,
    ser_impl: bool,
    de_impl: bool,
) -> bool {
    (derived(ser, de) && custom(ser_impl, de_impl)) || (!derived(ser, de) && converted(from, into))
}

/// The category ladder: invalid first, then derived (with or without conversion),
/// then custom, then none.
pub open spec fn color_of(
    ser: bool,
    de: bool,
    from: bool,
    into: bool,
    ser_impl: bool,
    de_impl: bool,
) -> Color {
    let gradient = asymmetric(ser, de, from, into, ser_impl, de_impl);
    if invalid_combination(ser, de, from, into, ser_impl, de_impl) {
        Color::Red
    } else if derived(ser, de) {
        if converted(from, into) {
            if gradient {
                Color::BlueGradient
            } else {
                Color::Blue
            }
        } else if gradient {
            Color::GreenGradient
        } else {
            Color::Green
        }
    } else if custom(ser_impl, de_impl) {
        if gradient {
            Color::YellowGradient
        } else {
            Color::Yellow
        }
    } else {
        Color::White
    }
}

/// Red is returned exactly on the invalid combinations.
pub proof fn lemma_red_iff_invalid(
    ser: bool,
    de: bool,
    from: bool,
    into: bool,
    ser_impl: bool,
    de_impl: bool,
)
    ensures
        (color_of(ser, de, from, into, ser_impl, de_impl) == Color::Red) <==> invalid_combination(
            ser,
            de,
            from,
            into,
            ser_impl,
            de_impl,
        ),
{
}

/// On a valid combination a gradient category comes out exactly when the facts are
/// asymmetric; when every pair agrees no gradient category ever comes out.
pub proof fn lemma_gradient_iff_asymmetric(
    ser: bool,
    de: bool,
    from: bool,
    into: bool,
    ser_impl: bool,
    de_impl: bool,
)
    ensures
        !invalid_combination(ser, de, from, into, ser_impl, de_impl) ==> (color_of(
            ser,
            de,
            from,
            into,
            ser_impl,
            de_impl,
        ).is_gradient() <==> asymmetric(ser, de, from, into, ser_impl, de_impl)),
        !asymmetric(ser, de, from, into, ser_impl, de_impl) ==> !color_of(
            ser,
            de,
            from,
            into,
            ser_impl,
            de_impl,
        ).is_gradient(),
{
}

/// Computes the category of six serialization facts.
pub fn classify(ser: bool, de: bool, from: bool, into: bool, ser_impl: bool, de_impl: bool) -> (r:
    Color)
    ensures
        r == color_of(ser, de, from, into, ser_impl, de_impl),
{
    let derive = ser || de;
    let from_into = from || into;
    let custom_impl = ser_impl || de_impl;
    let gradient = (ser != de) || (from != into) || (ser_impl != de_impl);
    if derive && custom_impl || !derive && from_into {
        Color::Red
    } else if derive {
        if from_into {
            if gradient {
                Color::BlueGradient
            } else {
                Color::Blue
            }
        } else if gradient {
            Color::GreenGradient
        } else {
            Color::Green
        }
    } else if custom_impl {
        if gradient {
            Color::YellowGradient
        } else {
            Color::Yellow
        }
    } else {
        Color::White
    }
}

/// `acc` followed by each item of `other` that is not already there, first occurrence
/// first.
pub open spec fn append_unique(acc: Seq<Seq<char>>, other: Seq<Seq<char>>) -> Seq<Seq<char>>
    decreases other.len(),
{
    if other.len() == 0 {
        acc
    } else {
        let before = append_unique(acc, other.drop_last());
        if before.contains(other.last()) {
            before
        } else {
            before.push(other.last())
        }
    }
}

/// The serialization facts and field references of one type.
#[derive(Debug)]
pub struct Entry {
    pub public: bool,
    pub kind: DataType,
    /// `#[derive(Serialize)]`
    pub serialize: bool,
    /// `#[derive(Deserialize)]`
    pub deserialize: bool,
    /// `#[serde(from = ..)]` or `#[serde(try_from = ..)]`
    pub serde_from: bool,
    /// `#[serde(into = ..)]`
    pub serde_into: bool,
    /// a hand-written `impl Serialize`
    pub serializer: bool,
    /// a hand-written `impl Deserialize`
    pub deserializer: bool,
    /// some field carries its own `#[serde(..)]`
    pub serde_custom_field: bool,
    /// the type names that the fields mention, without duplicates, in order of appearance
    pub fields: Vec<String>,
}

/// What a record holds, with its field references as character sequences.
pub struct EntryView {
    pub public: bool,
    pub kind: DataType,
    pub serialize: bool,
    pub deserialize: bool,
    pub serde_from: bool,
    pub serde_into: bool,
    pub serializer: bool,
    pub deserializer: bool,
    pub serde_custom_field: bool,
    pub refs: Seq<Seq<char>>,
}

impl EntryView {
    pub open spec fn color(self) -> Color {
        color_of(
            self.serialize,
            self.deserialize,
            self.serde_from,
            self.serde_into,
            self.serializer,
            self.deserializer,
        )
    }
}

/// The record that `Entry::new` makes.
pub open spec fn fresh_view(kind: DataType) -> EntryView {
    EntryView {
        public: false,
        kind,
        serialize: false,
        deserialize: false,
        serde_from: false,
        serde_into: false,
        serializer: false,
        deserializer: false,
        serde_custom_field: false,
        refs: Seq::<Seq<char>>::empty(),
    }
}

/// Attribute facts of a declaration.
#[derive(Debug, Clone, Copy, PartialEq, Eq, Structural)]
pub struct Attrs {
    /// `#[derive(.. Serialize ..)]`
    pub derive_serialize: bool,
    /// `#[derive(.. Deserialize ..)]`
    pub derive_deserialize: bool,
    /// some `#[serde(..)]` attribute is present
    pub serde: bool,
    /// `from` or `try_from` inside a `#[serde(..)]`
    pub serde_from: bool,
    /// `into` inside a `#[serde(..)]`
    pub serde_into: bool,
}

/// The fields of a struct or of one enum variant.
#[derive(Debug)]
pub struct Fields {
    /// some field carries a `#[serde(..)]` attribute
    pub serde_attr: bool,
    /// for each field, the type names that its type mentions
    pub types: Vec<Vec<String>>,
}

impl Fields {
    pub open spec fn type_lists(&self) -> Seq<Seq<Seq<char>>> {
        self.types@.map_values(|v: Vec<String>| strs(v@))
    }
}

/// The record after `complete_basics`.
pub open spec fn basics_view(e: EntryView, public: bool, attrs: Attrs) -> EntryView {
    EntryView {
        public: e.public || public,
        serialize: attrs.derive_serialize,
        deserialize: attrs.derive_deserialize,
        serde_from: if attrs.serde {
            attrs.serde_from
        } else {
            e.serde_from
        },
        serde_into: if attrs.serde {
            attrs.serde_into
        } else {
            e.serde_into
        },
        ..e
    }
}

/// Field references after adding, in order, the type names of each list.
pub open spec fn refs_after(acc: Seq<Seq<char>>, lists: Seq<Seq<Seq<char>>>) -> Seq<Seq<char>>
    decreases lists.len(),
{
    if lists.len() == 0 {
        acc
    } else {
        append_unique(refs_after(acc, lists.drop_last()), lists.last())
    }
}

/// The record after `complete_fields`.
pub open spec fn fields_view(e: EntryView, serde_attr: bool, lists: Seq<Seq<Seq<char>>>) -> EntryView {
    EntryView {
        serde_custom_field: e.serde_custom_field || serde_attr,
        refs: refs_after(e.refs, lists),
        ..e
    }
}

impl View for Entry {
    type V = EntryView;

    open spec fn view(&self) -> EntryView {
        EntryView {
            public: self.public,
            kind: self.kind,
            serialize: self.serialize,
            deserialize: self.deserialize,
            serde_from: self.serde_from,
            serde_into: self.serde_into,
            serializer: self.serializer,
            deserializer: self.deserializer,
            serde_custom_field: self.serde_custom_field,
            refs: strs(self.fields@),
        }
    }
}

impl Entry {
    pub open spec fn refs(&self) -> Seq<Seq<char>> {
        strs(self.fields@)
    }

    pub open spec fn wf(&self) -> bool {
        self.refs().no_duplicates()
    }

    pub open spec fn color_spec(&self) -> Color {
        color_of(
            self.serialize,
            self.deserialize,
            self.serde_from,
            self.serde_into,
            self.serializer,
            self.deserializer,
        )
    }

    /// All but the field references agree.
    pub open spec fn same_facts(&self, o: &Entry) -> bool {
        &&& self.public == o.public
        &&& self.kind == o.kind
        &&& self.serialize == o.serialize
        &&& self.deserialize == o.deserialize
        &&& self.serde_from == o.serde_from
        &&& self.serde_into == o.serde_into
        &&& self.serializer == o.serializer
        &&& self.deserializer == o.deserializer
        &&& self.serde_custom_field == o.serde_custom_field
    }

    /// A record of the given kind with every fact false and no field references.
    pub fn new(kind: DataType) -> (r: Self)
        ensures
            r.kind == kind,
            !r.public && !r.serialize && !r.deserialize && !r.serde_from && !r.serde_into,
            !r.serializer && !r.deserializer && !r.serde_custom_field,
            r.fields@.len() == 0,
            r.wf(),
    {
        Entry {
            public: false,
            kind,
            serialize: false,
            deserialize: false,
            serde_from: false,
            serde_into: false,
            serializer: false,
            deserializer: false,
            serde_custom_field: false,
            fields: Vec::new(),
        }
    }

    /// Appends to the field references each item of `other` not yet among them.
    pub fn add_to_fields(&mut self, other: Vec<String>)
        ensures
            final(self).refs() == append_unique(old(self).refs(), strs(other@)),
            final(self).same_facts(old(self)),
            old(self).wf() ==> final(self).wf(),
    {
        let ghost start = self.refs();
        let mut i: usize = 0;
        while i < other.len()
            invariant
                i <= other@.len(),
                self.refs() == append_unique(start, strs(other@).subrange(0, i as int)),
                self.same_facts(old(self)),
                old(self).wf() ==> self.wf(),
            decreases other@.len() - i,
        {
            let ghost pre = strs(other@).subrange(0, i as int);
            assert(strs(other@).subrange(0, i + 1).drop_last() =~= pre);
            let o = &other[i];
            if !contains_str(&self.fields, o) {
                self.fields.push(o.clone());
                assert(self.refs() =~= append_unique(start, pre).push(o@));
            }
            i = i + 1;
        }
        assert(strs(other@).subrange(0, other@.len() as int) =~= strs(other@));
    }


    /// Records visibility and the attribute facts of a declaration. The conversion
    /// facts change only where a `#[serde(..)]` attribute is present.
    pub fn complete_basics(&mut self, public: bool, attrs: &Attrs)
        ensures
            final(self)@ == basics_view(old(self)@, public, *attrs),
            final(self).fields == old(self).fields,
    {
        if public {
            self.public = true;
        }
        self.serialize = attrs.derive_serialize;
        self.deserialize = attrs.derive_deserialize;
        if attrs.serde {
            self.serde_from = attrs.serde_from;
            self.serde_into = attrs.serde_into;
        }
    }

    /// Records the fields of a declaration: whether any carries its own serde
    /// attribute, and the type names each mentions.
    pub fn complete_fields(&mut self, fields: &Fields)
        ensures
            final(self)@ == fields_view(old(self)@, fields.serde_attr, fields.type_lists()),
            old(self).wf() ==> final(self).wf(),
    {
        if fields.serde_attr {
            self.serde_custom_field = true;
        }
        let ghost start = old(self)@;
        let mut i: usize = 0;
        while i < fields.types.len()
            invariant
                i <= fields.types@.len(),
                self@ == fields_view(start, fields.serde_attr, fields.type_lists().subrange(0, i as int)),
                old(self).wf() ==> self.wf(),
            decreases fields.types@.len() - i,
        {
            assert(fields.type_lists().subrange(0, i + 1).drop_last() =~= fields.type_lists().subrange(0, i as int));
            let list = fields.types[i].clone();
            assert(strs(list@) =~= fields.type_lists()[i as int]);
            self.add_to_fields(list);
            i = i + 1;
        }
        assert(fields.type_lists().subrange(0, fields.types@.len() as int) =~= fields.type_lists());
    }

    /// The serialization category of this record.
    pub fn get_color(&self) -> (r: Color)
        ensures
            r == self.color_spec(),
    {
        classify(
            self.serialize,
            self.deserialize,
            self.serde_from,
            self.serde_into,
            self.serializer,
            self.deserializer,
        )
    }
}

} // verus!
