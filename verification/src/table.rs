//! Token enums as data: what is declared for each variant of a token enum,
//! the table that a well-formed declaration gives, and which variant the
//! table chooses for a character.

use vstd::prelude::*;

verus! {

/// The characters that a unit variant is assigned: a single character, or
/// any of several.
#[derive(Debug, Clone, PartialEq, Eq)]
pub enum CharExpr {
    /// The variant matches this character.
    Char(char),
    /// The variant matches each of these characters.
    Chars(Vec<char>),
}

impl CharExpr {
    /// The characters that are matched, in the order in which they are
    /// written.
    pub open spec fn chars(self) -> Seq<char> {
        match self {
            CharExpr::Char(c) => seq![c],
            CharExpr::Chars(chars) => chars@,
        }
    }

    /// Whether `c` is one of the characters.
    pub fn contains(&self, c: char) -> (found: bool)
        ensures
            found == self.chars().contains(c),
    {
        match self {
            CharExpr::Char(own) => {
                assert(seq![*own][0] == *own);
                *own == c
            },
            CharExpr::Chars(chars) => {
                let mut i: usize = 0;
                while i < chars.len()
                    invariant
                        i <= chars.len(),
                        self.chars() == chars@,
                        forall|j: int| 0 <= j < i ==> chars@[j] != c,
                    decreases chars.len() - i,
                {
                    if chars[i] == c {
                        assert(chars@[i as int] == c);
                        return true;
                    }
                    i += 1;
                }
                false
            },
        }
    }
}

/// The fields that a variant is declared with.
#[derive(Debug, Clone, Copy, PartialEq, Eq)]
pub enum Fields {
    /// Fields with names.
    Named,
    /// This many fields without names.
    Unnamed(usize),
    /// No fields.
    Unit,
}

/// What a variant is assigned in its declaration.
#[derive(Debug, Clone, PartialEq, Eq)]
pub enum Assignment {
    /// Nothing is assigned.
    Absent,
    /// A single character.
    Char(char),
    /// A list; an element that is not a character is `None`.
    Array(Vec<Option<char>>),
    /// Anything else.
    Other,
}

/// One variant of a token enum, as it is declared.
#[derive(Debug, Clone, PartialEq, Eq)]
pub struct Variant {
    /// The fields of the variant.
    pub fields: Fields,
    /// What the variant is assigned.
    pub assignment: Assignment,
}

/// Why a declaration is not that of a token enum.
#[derive(Debug, Clone, Copy, PartialEq, Eq)]
pub enum TableError {
    /// A variant has named fields.
    NamedFields,
    /// A variant has no unnamed field, or more than one.
    FieldCount,
    /// A variant with a field is assigned something.
    AssignedField,
    /// A variant without fields is assigned nothing.
    Unassigned,
    /// A variant is assigned something other than a character or a list of
    /// characters.
    NotChars,
}

impl TableError {
    /// What is said to the author of the enum, as characters.
    pub open spec fn text(self) -> Seq<char> {
        match self {
            TableError::NamedFields => "A Token-Enum can't have named fields!"@,
            TableError::FieldCount => "A Token-Enum can only have one unnamed field!"@,
            TableError::AssignedField => "A Token-Enum with a field can't be assigned to anything!"@,
            TableError::Unassigned => "A Token-Enum with no fields needs to be assigned to a single 'char' or multiple [chars]!"@,
            TableError::NotChars => "A Token-Enum can only be assigned to a single 'char' or multiple [chars]!"@,
        }
    }

    /// What is said to the author of the enum.
    pub fn message(&self) -> (message: &'static str)
        ensures
            message@ == self.text(),
    {
        match self {
            TableError::NamedFields => "A Token-Enum can't have named fields!",
            TableError::FieldCount => "A Token-Enum can only have one unnamed field!",
            TableError::AssignedField => "A Token-Enum with a field can't be assigned to anything!",
            TableError::Unassigned => "A Token-Enum with no fields needs to be assigned to a single 'char' or multiple [chars]!",
            TableError::NotChars => "A Token-Enum can only be assigned to a single 'char' or multiple [chars]!",
        }
    }
}

impl Variant {
    /// What the declaration of the variant amounts to: the characters of a
    /// unit variant, nothing for a variant that wraps another token type,
    /// or the reason why the declaration is refused.
    pub open spec fn checked(self) -> Result<Option<Seq<char>>, TableError> {
        match self.fields {
            Fields::Named => Err(TableError::NamedFields),
            Fields::Unnamed(count) => if count != 1 {
                Err(TableError::FieldCount)
            } else if self.assignment is Absent {
                Ok(None)
            } else {
                Err(TableError::AssignedField)
            },
            Fields::Unit => match self.assignment {
                Assignment::Absent => Err(TableError::Unassigned),
                Assignment::Char(c) => Ok(Some(seq![c])),
                Assignment::Array(elements) => if forall|i: int|
                    0 <= i < elements@.len() ==> (#[trigger] elements@[i]) is Some {
                    Ok(Some(elements@.map_values(|element: Option<char>| element.unwrap())))
                } else {
                    Err(TableError::NotChars)
                },
                Assignment::Other => Err(TableError::NotChars),
            },
        }
    }
}

/// Checks the declaration of one variant. A unit variant gives the
/// characters it is assigned, a variant with one unnamed field gives
/// nothing, and every other declaration is refused.
pub fn handle_variant(variant: &Variant) -> (entry: Result<Option<CharExpr>, TableError>)
    ensures
        match entry {
            Ok(Some(expr)) => {
                &&& variant.checked() == Ok::<Option<Seq<char>>, TableError>(Some(expr.chars()))
                &&& expr is Char <==> variant.assignment is Char
            },
            Ok(None) => variant.checked() == Ok::<Option<Seq<char>>, TableError>(None),
            Err(error) => variant.checked() == Err::<Option<Seq<char>>, TableError>(error),
        },
{
    match variant.fields {
        Fields::Named => Err(TableError::NamedFields),
        Fields::Unnamed(count) => {
            if count != 1 {
                Err(TableError::FieldCount)
            } else {
                match &variant.assignment {
                    Assignment::Absent => Ok(None),
                    _ => Err(TableError::AssignedField),
                }
            }
        },
        Fields::Unit => match &variant.assignment {
            Assignment::Absent => Err(TableError::Unassigned),
            Assignment::Char(c) => Ok(Some(CharExpr::Char(*c))),
            Assignment::Array(elements) => {
                let mut chars: Vec<char> = Vec::new();
                let mut i: usize = 0;
                while i < elements.len()
                    invariant
                        i <= elements.len(),
                        variant.fields is Unit,
                        variant.assignment == Assignment::Array(*elements),
                        chars@.len() == i,
                        forall|j: int| 0 <= j < i ==> elements@[j] == Some(#[trigger] chars@[j]),
                    decreases elements.len() - i,
                {
                    match elements[i] {
                        Some(c) => {
                            chars.push(c);
                        },
                        None => {
                            assert(elements@[i as int] is None);
                            return Err(TableError::NotChars);
                        },
                    }
                    i += 1;
                }
                assert forall|j: int| 0 <= j < elements@.len() implies (#[trigger] elements@[j]) is Some by {
                    assert(elements@[j] == Some(chars@[j]));
                }
                assert(chars@ =~= elements@.map_values(|element: Option<char>| element.unwrap()));
                Ok(Some(CharExpr::Chars(chars)))
            },
            Assignment::Other => Err(TableError::NotChars),
        },
    }
}

/// The unit variants among `variants`, in the order of their declaration:
/// each with its index in the declaration and its characters.
pub open spec fn literal_entries(variants: Seq<Variant>) -> Seq<(usize, Seq<char>)>
    decreases variants.len(),
{
    if variants.len() == 0 {
        Seq::empty()
    } else {
        let rest = literal_entries(variants.drop_last());
        match variants.last().checked() {
            Ok(Some(chars)) => rest.push(((variants.len() - 1) as usize, chars)),
            _ => rest,
        }
    }
}

/// The indexes of the variants among `variants` that wrap another token
/// type, in the order of their declaration.
pub open spec fn nested_entries(variants: Seq<Variant>) -> Seq<usize>
    decreases variants.len(),
{
    if variants.len() == 0 {
        Seq::empty()
    } else {
        let rest = nested_entries(variants.drop_last());
        match variants.last().checked() {
            Ok(None) => rest.push((variants.len() - 1) as usize),
            _ => rest,
        }
    }
}

/// The index of the first `true` in `hits`, or the length of `hits` where
/// there is none.
pub open spec fn first_hit(hits: Seq<bool>) -> int
    decreases hits.len(),
{
    if hits.len() == 0 {
        0
    } else if hits[0] {
        0
    } else {
        1 + first_hit(hits.drop_first())
    }
}

/// `first_hit` is the least index of a hit: nothing before it is a hit, and
/// it is a hit itself unless it is the length. It is the only such index.
pub proof fn first_hit_is_least(hits: Seq<bool>, i: int)
    requires
        0 <= i <= hits.len(),
        forall|j: int| 0 <= j < i ==> !hits[j],
        i < hits.len() ==> hits[i],
    ensures
        first_hit(hits) == i,
    decreases hits.len(),
{
    if i > 0 {
        let rest = hits.drop_first();
        assert(!hits[0]);
        assert forall|j: int| 0 <= j < i - 1 implies !rest[j] by {
            assert(rest[j] == hits[j + 1]);
        }
        first_hit_is_least(rest, i - 1);
    }
}

/// `first_hit` lies within the sequence or at its length, nothing before it
/// is a hit, and within the sequence it is a hit.
pub proof fn first_hit_bounds(hits: Seq<bool>)
    ensures
        0 <= first_hit(hits) <= hits.len(),
        forall|j: int| 0 <= j < first_hit(hits) ==> !hits[j],
        first_hit(hits) < hits.len() ==> hits[first_hit(hits)],
    decreases hits.len(),
{
    if hits.len() > 0 && !hits[0] {
        let rest = hits.drop_first();
        first_hit_bounds(rest);
        assert forall|j: int| 0 <= j < first_hit(hits) implies !hits[j] by {
            if j > 0 {
                assert(rest[j - 1] == hits[j]);
            }
        }
    }
}

/// The table of a token enum: what deciding on a variant for a character
/// takes.
#[derive(Debug, Clone, PartialEq, Eq)]
pub struct TokenEnum {
    /// The unit variants in the order of their declaration, each with its
    /// index in the declaration and the characters it is assigned.
    pub exprs: Vec<(usize, CharExpr)>,
    /// The indexes of the variants that wrap another token type, in the
    /// order of their declaration.
    pub fields: Vec<usize>,
}

impl TokenEnum {
    /// The unit variants with their characters.
    pub open spec fn literals(self) -> Seq<(usize, Seq<char>)> {
        self.exprs@.map_values(|entry: (usize, CharExpr)| (entry.0, entry.1.chars()))
    }

    /// For each unit variant, whether `c` is one of its characters.
    pub open spec fn hits(self, c: char) -> Seq<bool> {
        self.exprs@.map_values(|entry: (usize, CharExpr)| entry.1.chars().contains(c))
    }

    /// The index of the first declared unit variant that `c` is a character
    /// of, if there is one.
    pub open spec fn literal(self, c: char) -> Option<usize> {
        let i = first_hit(self.hits(c));
        if i < self.exprs@.len() {
            Some(self.exprs@[i].0)
        } else {
            None
        }
    }

    /// The index of the variant that is chosen for `c`, where `nested` says
    /// of each wrapping variant, in the order of `fields`, whether the token
    /// type it wraps matches `c`: the first unit variant that `c` is a
    /// character of; only if there is none, the first wrapping variant whose
    /// token type matches; else none.
    pub open spec fn chosen(self, c: char, nested: Seq<bool>) -> Option<usize> {
        match self.literal(c) {
            Some(index) => Some(index),
            None => {
                let k = first_hit(nested);
                if k < nested.len() && k < self.fields@.len() {
                    Some(self.fields@[k])
                } else {
                    None
                }
            },
        }
    }

    /// The table of an enum without variants.
    pub fn new() -> (table: Self)
        ensures
            table.exprs@.len() == 0,
            table.fields@.len() == 0,
    {
        Self { exprs: Vec::new(), fields: Vec::new() }
    }

    /// Builds the table of the enum with these variants. The declaration is
    /// refused with the error of its first variant that is refused.
    pub fn fold(variants: &Vec<Variant>) -> (folded: Result<Self, TableError>)
        ensures
            match folded {
                Ok(table) => {
                    &&& forall|i: int|
                        0 <= i < variants@.len() ==> (#[trigger] variants@[i].checked()) is Ok
                    &&& table.literals() == literal_entries(variants@)
                    &&& table.fields@ == nested_entries(variants@)
                    &&& forall|k: int|
                        0 <= k < table.exprs@.len() ==> {
                            &&& (#[trigger] table.exprs@[k]).0 < variants@.len()
                            &&& table.exprs@[k].1 is Char <==> variants@[table.exprs@[k].0 as int].assignment is Char
                        }
                },
                Err(error) => exists|i: int|
                    {
                        &&& 0 <= i < variants@.len()
                        &&& (#[trigger] variants@[i].checked()) == Err::<Option<Seq<char>>, TableError>(error)
                        &&& forall|j: int| 0 <= j < i ==> (#[trigger] variants@[j].checked()) is Ok
                    },
            },
    {
        let mut table = Self::new();
        let mut i: usize = 0;
        while i < variants.len()
            invariant
                i <= variants.len(),
                forall|j: int| 0 <= j < i ==> (#[trigger] variants@[j].checked()) is Ok,
                table.literals() == literal_entries(variants@.take(i as int)),
                table.fields@ == nested_entries(variants@.take(i as int)),
                forall|k: int|
                    0 <= k < table.exprs@.len() ==> {
                        &&& (#[trigger] table.exprs@[k]).0 < i
                        &&& table.exprs@[k].1 is Char <==> variants@[table.exprs@[k].0 as int].assignment is Char
                    },
            decreases variants.len() - i,
        {
            let ghost before = table;
            proof {
                assert(variants@.take(i + 1).drop_last() =~= variants@.take(i as int));
                assert(variants@.take(i + 1).last() == variants@[i as int]);
            }
            match handle_variant(&variants[i]) {
                Ok(Some(expr)) => {
                    table.exprs.push((i, expr));
                    assert(table.literals() =~= before.literals().push((i, expr.chars())));
                },
                Ok(None) => {
                    table.fields.push(i);
                    assert(table.literals() =~= before.literals());
                },
                Err(error) => {
                    return Err(error);
                },
            }
            i += 1;
        }
        assert(variants@.take(i as int) =~= variants@);
        Ok(table)
    }

    /// The index of the first declared unit variant that `c` is a character
    /// of, if there is one.
    pub fn match_literal(&self, c: char) -> (index: Option<usize>)
        ensures
            index == self.literal(c),
    {
        let mut i: usize = 0;
        while i < self.exprs.len()
            invariant
                i <= self.exprs.len(),
                forall|j: int| 0 <= j < i ==> !self.hits(c)[j],
            decreases self.exprs.len() - i,
        {
            if self.exprs[i].1.contains(c) {
                proof {
                    first_hit_is_least(self.hits(c), i as int);
                }
                return Some(self.exprs[i].0);
            }
            i += 1;
        }
        proof {
            first_hit_is_least(self.hits(c), i as int);
        }
        None
    }

    /// Chooses the variant for `c`. `nested` says of each wrapping variant,
    /// in the order of `fields`, whether the token type it wraps matches
    /// `c`. A unit variant goes before every wrapping variant, and among
    /// each kind the variant that is declared first.
    pub fn match_char(&self, c: char, nested: &Vec<bool>) -> (index: Option<usize>)
        ensures
            index == self.chosen(c, nested@),
    {
        match self.match_literal(c) {
            Some(index) => Some(index),
            None => {
                let mut k: usize = 0;
                while k < nested.len() && k < self.fields.len()
                    invariant
                        k <= nested.len(),
                        self.literal(c) is None,
                        forall|j: int| 0 <= j < k ==> !nested@[j],
                    decreases nested.len() - k,
                {
                    if nested[k] {
                        proof {
                            first_hit_is_least(nested@, k as int);
                        }
                        return Some(self.fields[k]);
                    }
                    k += 1;
                }
                proof {
                    if k < nested.len() {
                        first_hit_bounds(nested@);
                        if first_hit(nested@) < k {
                            assert(!nested@[first_hit(nested@)]);
                        }
                    } else {
                        first_hit_is_least(nested@, k as int);
                    }
                }
                None
            },
        }
    }
}

/// Whether the variant is a unit variant that is assigned `c`.
pub open spec fn declares(variant: Variant, c: char) -> bool {
    match variant.checked() {
        Ok(Some(chars)) => chars.contains(c),
        _ => false,
    }
}

/// The unit variants of a declaration stand in its table in the order of
/// their declaration: each entry holds the index of a unit variant and its
/// characters, the indexes increase, and no unit variant is left out.
pub proof fn literal_entries_are_ordered(variants: Seq<Variant>)
    requires
        variants.len() <= usize::MAX,
    ensures
        forall|k: int|
            0 <= k < literal_entries(variants).len() ==> {
                &&& 0 <= (#[trigger] literal_entries(variants)[k]).0 < variants.len()
                &&& variants[literal_entries(variants)[k].0 as int].checked() == Ok::<
                    Option<Seq<char>>,
                    TableError,
                >(Some(literal_entries(variants)[k].1))
            },
        forall|j: int, k: int|
            0 <= j < k < literal_entries(variants).len() ==> (#[trigger] literal_entries(
                variants,
            )[j]).0 < (#[trigger] literal_entries(variants)[k]).0,
        forall|i: int|
            0 <= i < variants.len() && (#[trigger] variants[i].checked()) is Ok
                && variants[i].checked()->Ok_0 is Some ==> exists|k: int|
                0 <= k < literal_entries(variants).len() && (#[trigger] literal_entries(
                    variants,
                )[k]).0 == i,
    decreases variants.len(),
{
    if variants.len() > 0 {
        let front = variants.drop_last();
        let entries = literal_entries(variants);
        let last = (variants.len() - 1) as int;
        literal_entries_are_ordered(front);
        assert forall|k: int| 0 <= k < literal_entries(front).len() implies entries[k]
            == literal_entries(front)[k] && variants[entries[k].0 as int] == front[entries[k].0 as int] by {}
        assert forall|i: int|
            0 <= i < variants.len() && (#[trigger] variants[i].checked()) is Ok
                && variants[i].checked()->Ok_0 is Some implies exists|k: int|
            0 <= k < entries.len() && (#[trigger] entries[k]).0 == i by {
            if i < last {
                assert(front[i] == variants[i]);
                let k = choose|k: int|
                    0 <= k < literal_entries(front).len() && (#[trigger] literal_entries(front)[k]).0
                        == i;
                assert(entries[k].0 == i);
            } else {
                assert(entries[entries.len() - 1].0 == i);
            }
        }
    }
}

/// The wrapping variants of a declaration stand in its table in the order of
/// their declaration: each entry is the index of a variant with one unnamed
/// field and no assignment, the indexes increase, and no such variant is
/// left out.
pub proof fn nested_entries_are_ordered(variants: Seq<Variant>)
    requires
        variants.len() <= usize::MAX,
    ensures
        forall|k: int|
            0 <= k < nested_entries(variants).len() ==> {
                &&& 0 <= (#[trigger] nested_entries(variants)[k]) < variants.len()
                &&& variants[nested_entries(variants)[k] as int].checked() == Ok::<
                    Option<Seq<char>>,
                    TableError,
                >(None)
            },
        forall|j: int, k: int|
            0 <= j < k < nested_entries(variants).len() ==> (#[trigger] nested_entries(variants)[j])
                < (#[trigger] nested_entries(variants)[k]),
        forall|i: int|
            0 <= i < variants.len() && (#[trigger] variants[i].checked()) == Ok::<
                Option<Seq<char>>,
                TableError,
            >(None) ==> nested_entries(variants).contains(i as usize),
    decreases variants.len(),
{
    if variants.len() > 0 {
        let front = variants.drop_last();
        let entries = nested_entries(variants);
        let last = (variants.len() - 1) as int;
        nested_entries_are_ordered(front);
        assert forall|k: int| 0 <= k < nested_entries(front).len() implies entries[k]
            == nested_entries(front)[k] && variants[entries[k] as int] == front[entries[k] as int] by {}
        assert forall|i: int|
            0 <= i < variants.len() && (#[trigger] variants[i].checked()) == Ok::<
                Option<Seq<char>>,
                TableError,
            >(None) implies entries.contains(i as usize) by {
            if i < last {
                assert(front[i] == variants[i]);
                let k = choose|k: int|
                    0 <= k < nested_entries(front).len() && nested_entries(front)[k] == i as usize;
                assert(entries[k] == i as usize);
            } else {
                assert(entries[entries.len() - 1] == i as usize);
            }
        }
    }
}

/// Among the unit variants the one that is declared first wins: the
/// variant that the table of a declaration picks for `c` is the first
/// variant of the declaration that is a unit variant assigned `c`, and the
/// table picks none exactly where no unit variant is assigned `c`.
pub proof fn first_declared_literal_wins(variants: Seq<Variant>, table: TokenEnum, c: char)
    requires
        variants.len() <= usize::MAX,
        table.literals() == literal_entries(variants),
    ensures
        match table.literal(c) {
            Some(index) => {
                &&& index < variants.len()
                &&& declares(variants[index as int], c)
                &&& forall|j: int| 0 <= j < index ==> !declares(#[trigger] variants[j], c)
            },
            None => forall|j: int| 0 <= j < variants.len() ==> !declares(#[trigger] variants[j], c),
        },
{
    let entries = literal_entries(variants);
    let hits = table.hits(c);
    let first = first_hit(hits);
    literal_entries_are_ordered(variants);
    first_hit_bounds(hits);
    assert forall|k: int| 0 <= k < entries.len() implies entries[k] == (
        table.exprs@[k].0,
        table.exprs@[k].1.chars(),
    ) && hits[k] == entries[k].1.contains(c) by {
        assert(table.literals()[k] == entries[k]);
    }
    assert(entries.len() == table.exprs@.len());
    assert forall|j: int|
        0 <= j < variants.len() && (first < entries.len() ==> j < entries[first].0) implies !declares(
        #[trigger] variants[j],
        c,
    ) by {
        if declares(variants[j], c) {
            assert(variants[j].checked() is Ok);
            let k = choose|k: int| 0 <= k < entries.len() && (#[trigger] entries[k]).0 == j;
            assert(hits[k]);
            if first < entries.len() && k >= first {
                if k > first {
                    assert(entries[first].0 < entries[k].0);
                }
            }
        }
    }
}

} // verus!
