//! The catalog of anchor tags and the map from tags to the cells where they were found.
use vstd::prelude::*;
use crate::error::{Error, Fault};

verus! {

/// Column groups: tags of one group must stand in one spreadsheet column.
#[derive(Clone, Copy, Debug, PartialEq, Eq, Structural)]
pub enum Column {
    Initial,
    Contract,
}

/// Row groups: tags of one group must stand in one spreadsheet row.
#[derive(Clone, Copy, Debug, PartialEq, Eq, Structural)]
pub enum Row {
    TableHeader,
}

/// The landmarks searched for on a KS-2 sheet.
#[derive(Clone, Copy, Debug, PartialEq, Eq, Hash, Structural)]
pub enum TagID {
    Executor,
    Construction,
    Object,
    Contract,
    SupplementaryAgreement,
    DocumentNumber,
    WorkName,
    BasePrice2001,
    CurrentPrice,
    LaborTotal,
    ActTotal,
    MaterialsTotal,
}

/// How a cell text is compared with a tag's text.
#[derive(Clone, Copy, Debug, PartialEq, Eq, Structural)]
pub enum TextCmp {
    Part,
    Whole,
    StartsWith,
    EndsWith,
}

/// Everything known of one tag: whether the sheet must hold it, its alignment group
/// and how its text is compared.
#[derive(Clone, Copy, Debug, PartialEq, Eq, Structural)]
pub struct TagInfo {
    pub id: TagID,
    pub is_required: bool,
    pub group_by_row: Option<Row>,
    pub group_by_col: Option<Column>,
    pub look_at: TextCmp,
    pub match_case: bool,
}

/// The number of tags in the catalog.
pub const TAG_COUNT: usize = 12;

/// The tag's landmark text.
pub open spec fn tag_text(id: TagID) -> Seq<char> {
    match id {
        TagID::Executor => "Исполнитель"@,
        TagID::Construction => "Стройка"@,
        TagID::Object => "Объект"@,
        TagID::Contract => "Договор подряда"@,
        TagID::SupplementaryAgreement => "Доп. соглашение"@,
        TagID::DocumentNumber => "Номер документа"@,
        TagID::WorkName => "Наименование работ и затрат"@,
        TagID::BasePrice2001 => "Стоимость в ценах 2001"@,
        TagID::CurrentPrice => "Стоимость в текущих ценах"@,
        TagID::LaborTotal => "ЗТР всего чел"@,
        TagID::ActTotal => "Итого по акту:"@,
        TagID::MaterialsTotal => "Стоимость материальных ресурсов (всего)"@,
    }
}

/// The tag's place in the catalog, which is the order in which tags are met on a
/// sheet read left to right and top to bottom.
pub open spec fn tag_index(id: TagID) -> nat {
    match id {
        TagID::Executor => 0,
        TagID::Construction => 1,
        TagID::Object => 2,
        TagID::Contract => 3,
        TagID::SupplementaryAgreement => 4,
        TagID::DocumentNumber => 5,
        TagID::WorkName => 6,
        TagID::BasePrice2001 => 7,
        TagID::CurrentPrice => 8,
        TagID::LaborTotal => 9,
        TagID::ActTotal => 10,
        TagID::MaterialsTotal => 11,
    }
}

/// The tag at place `i` of the catalog.
pub open spec fn tag_at(i: int) -> TagID {
    if i <= 0 {
        TagID::Executor
    } else if i == 1 {
        TagID::Construction
    } else if i == 2 {
        TagID::Object
    } else if i == 3 {
        TagID::Contract
    } else if i == 4 {
        TagID::SupplementaryAgreement
    } else if i == 5 {
        TagID::DocumentNumber
    } else if i == 6 {
        TagID::WorkName
    } else if i == 7 {
        TagID::BasePrice2001
    } else if i == 8 {
        TagID::CurrentPrice
    } else if i == 9 {
        TagID::LaborTotal
    } else if i == 10 {
        TagID::ActTotal
    } else {
        TagID::MaterialsTotal
    }
}

/// The catalog entry of a tag.
pub open spec fn info_of(id: TagID) -> TagInfo {
    let (req, row, col, look, case) = match id {
        TagID::Executor => (false, None, Some(Column::Initial), TextCmp::Whole, false),
        TagID::Construction => (true, None, Some(Column::Initial), TextCmp::Whole, false),
        TagID::Object => (true, None, Some(Column::Initial), TextCmp::Whole, false),
        TagID::Contract => (true, None, Some(Column::Contract), TextCmp::Whole, false),
        TagID::SupplementaryAgreement => (true, None, Some(Column::Contract), TextCmp::Whole, false),
        TagID::DocumentNumber => (true, None, None, TextCmp::Whole, false),
        TagID::WorkName => (true, Some(Row::TableHeader), None, TextCmp::Whole, false),
        TagID::BasePrice2001 => (true, Some(Row::TableHeader), None, TextCmp::Part, true),
        TagID::CurrentPrice => (true, Some(Row::TableHeader), None, TextCmp::Part, true),
        TagID::LaborTotal => (false, Some(Row::TableHeader), None, TextCmp::Part, true),
        TagID::ActTotal => (false, None, Some(Column::Initial), TextCmp::Whole, true),
        TagID::MaterialsTotal => (true, None, None, TextCmp::Whole, false),
    };
    TagInfo { id, is_required: req, group_by_row: row, group_by_col: col, look_at: look, match_case: case }
}

/// The whole catalog, in sheet order.
pub open spec fn catalog() -> Seq<TagInfo> {
    Seq::new(TAG_COUNT as nat, |i: int| info_of(tag_at(i)))
}

/// Places and tags of the catalog correspond one to one.
pub proof fn lemma_tag_index(id: TagID)
    ensures
        tag_index(id) < TAG_COUNT,
        tag_at(tag_index(id) as int) == id,
        catalog()[tag_index(id) as int] == info_of(id),
{
}

impl TagID {
    /// The tag's landmark text.
    pub fn as_str(&self) -> (r: &'static str)
        ensures
            r@ == tag_text(*self),
    {
        match self {
            TagID::Executor => "Исполнитель",
            TagID::Construction => "Стройка",
            TagID::Object => "Объект",
            TagID::Contract => "Договор подряда",
            TagID::SupplementaryAgreement => "Доп. соглашение",
            TagID::DocumentNumber => "Номер документа",
            TagID::WorkName => "Наименование работ и затрат",
            TagID::BasePrice2001 => "Стоимость в ценах 2001",
            TagID::CurrentPrice => "Стоимость в текущих ценах",
            TagID::LaborTotal => "ЗТР всего чел",
            TagID::ActTotal => "Итого по акту:",
            TagID::MaterialsTotal => "Стоимость материальных ресурсов (всего)",
        }
    }

    /// The tag's place in the catalog.
    pub fn index(&self) -> (r: usize)
        ensures
            r == tag_index(*self),
    {
        match self {
            TagID::Executor => 0,
            TagID::Construction => 1,
            TagID::Object => 2,
            TagID::Contract => 3,
            TagID::SupplementaryAgreement => 4,
            TagID::DocumentNumber => 5,
            TagID::WorkName => 6,
            TagID::BasePrice2001 => 7,
            TagID::CurrentPrice => 8,
            TagID::LaborTotal => 9,
            TagID::ActTotal => 10,
            TagID::MaterialsTotal => 11,
        }
    }
}

/// The tag catalog, in the order in which tags are met on a sheet.
pub fn tag_catalog() -> (r: Vec<TagInfo>)
    ensures
        r@ == catalog(),
{
    let c = Column::Initial;
    let k = Column::Contract;
    let h = Row::TableHeader;
    let w = TextCmp::Whole;
    let p = TextCmp::Part;
    let v = vec![
        TagInfo { id: TagID::Executor, is_required: false, group_by_row: None, group_by_col: Some(c), look_at: w, match_case: false },
        TagInfo { id: TagID::Construction, is_required: true, group_by_row: None, group_by_col: Some(c), look_at: w, match_case: false },
        TagInfo { id: TagID::Object, is_required: true, group_by_row: None, group_by_col: Some(c), look_at: w, match_case: false },
        TagInfo { id: TagID::Contract, is_required: true, group_by_row: None, group_by_col: Some(k), look_at: w, match_case: false },
        TagInfo { id: TagID::SupplementaryAgreement, is_required: true, group_by_row: None, group_by_col: Some(k), look_at: w, match_case: false },
        TagInfo { id: TagID::DocumentNumber, is_required: true, group_by_row: None, group_by_col: None, look_at: w, match_case: false },
        TagInfo { id: TagID::WorkName, is_required: true, group_by_row: Some(h), group_by_col: None, look_at: w, match_case: false },
        TagInfo { id: TagID::BasePrice2001, is_required: true, group_by_row: Some(h), group_by_col: None, look_at: p, match_case: true },
        TagInfo { id: TagID::CurrentPrice, is_required: true, group_by_row: Some(h), group_by_col: None, look_at: p, match_case: true },
        TagInfo { id: TagID::LaborTotal, is_required: false, group_by_row: Some(h), group_by_col: None, look_at: p, match_case: true },
        TagInfo { id: TagID::ActTotal, is_required: false, group_by_row: None, group_by_col: Some(c), look_at: w, match_case: true },
        TagInfo { id: TagID::MaterialsTotal, is_required: true, group_by_row: None, group_by_col: None, look_at: w, match_case: false },
    ];
    assert(v@ =~= catalog());
    v
}

/// Lookups in the tag catalog.
pub struct TagArrayTools;

impl TagArrayTools {
    /// The catalog entry of `id`.
    pub fn get_tag_info_by_id(id: TagID) -> (r: Result<TagInfo, Error>)
        ensures
            r == Ok::<TagInfo, Error>(info_of(id)),
    {
        let tags = tag_catalog();
        let mut i: usize = 0;
        while i < tags.len()
            invariant
                tags@ == catalog(),
                i <= tags@.len(),
                forall|j: int| 0 <= j < i ==> tags@[j].id != id,
            decreases tags@.len() - i,
        {
            if tags[i].id == id {
                return Ok(tags[i]);
            }
            i += 1;
        }
        proof {
            lemma_tag_index(id);
            assert(tags@[tag_index(id) as int].id == id);
        }
        Err(Error::InternalLogic(Fault::MissingTag(id)))
    }
}

/// Where each found tag stands in a sheet's used range, as (row, column) from the
/// range's top-left cell.
#[derive(Debug)]
pub struct TagAddressMap {
    data: [Option<(usize, usize)>; 12],
}

impl View for TagAddressMap {
    type V = Map<TagID, (usize, usize)>;

    closed spec fn view(&self) -> Map<TagID, (usize, usize)> {
        Map::new(
            |k: TagID| self.data@[tag_index(k) as int] is Some,
            |k: TagID| self.data@[tag_index(k) as int]->0,
        )
    }
}

impl TagAddressMap {
    /// An empty map.
    pub fn new() -> (r: Self)
        ensures
            r@ == Map::<TagID, (usize, usize)>::empty(),
    {
        let r = TagAddressMap { data: [None, None, None, None, None, None, None, None, None, None, None, None] };
        proof {
            broadcast use vstd::array::group_array_axioms;
            lemma_all_tags_indexed();
        }
        assert(r@ =~= Map::<TagID, (usize, usize)>::empty());
        r
    }

    /// The address of `key`; a missing key is a fault of the program, not of the sheet.
    pub fn get(&self, key: &TagID) -> (r: Result<&(usize, usize), Error>)
        ensures
            self@.contains_key(*key) ==> r == Ok::<&(usize, usize), Error>(&self@[*key]),
            !self@.contains_key(*key) ==> r == Err::<&(usize, usize), Error>(
                Error::InternalLogic(Fault::MissingTag(*key)),
            ),
    {
        proof {
            broadcast use vstd::array::group_array_axioms;
            lemma_tag_index(*key);
        }
        match &self.data[key.index()] {
            Some(adr) => Ok(adr),
            None => Err(Error::InternalLogic(Fault::MissingTag(*key))),
        }
    }

    /// The address of `key`, if it was found.
    pub fn lookup(&self, key: TagID) -> (r: Option<(usize, usize)>)
        ensures
            r == (if self@.contains_key(key) { Some(self@[key]) } else { None::<(usize, usize)> }),
    {
        proof {
            broadcast use vstd::array::group_array_axioms;
            lemma_tag_index(key);
        }
        self.data[key.index()]
    }

    /// Records `data` as the address of `key`.
    pub fn insert(&mut self, key: TagID, data: (usize, usize))
        ensures
            final(self)@ == old(self)@.insert(key, data),
    {
        proof {
            broadcast use vstd::array::group_array_axioms;
            lemma_tag_index(key);
            lemma_tags_distinct_index(key);
        }
        self.data[key.index()] = Some(data);
        assert(self@ =~= old(self)@.insert(key, data));
    }
}

proof fn lemma_all_tags_indexed()
    ensures
        forall|k: TagID| #[trigger] tag_index(k) < TAG_COUNT,
{
}

proof fn lemma_tags_distinct_index(key: TagID)
    ensures
        forall|k: TagID| #[trigger] tag_index(k) == tag_index(key) ==> k == key,
        forall|k: TagID| #[trigger] tag_index(k) < TAG_COUNT,
{
}

} // verus!
