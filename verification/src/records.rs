use vstd::prelude::*;

verus! {

// ---------------------------------------------------------------------------
// Wire records: the shapes callers hand in and get back. A record carries an
// optional identifier; a create operation refuses a record without one.
// ---------------------------------------------------------------------------

/// Wire record of a page: a document with a hierarchical path (not unique),
/// a title, an opaque cache blob and epoch timestamps.
#[derive(Debug, PartialEq, Eq)]
pub struct PageJson {
    pub id: Option<String>,
    pub path: String,
    pub title: String,
    pub cache: String,
    pub created_at: i64,
    pub updated_at: i64,
}

/// Wire record of a block: a positioned content unit belonging to one page.
/// The position is an opaque, lexicographically sortable key. The checksum
/// is derived by the store and never part of the wire record.
#[derive(Debug, PartialEq, Eq)]
pub struct BlocJson {
    pub id: Option<String>,
    pub position: String,
    pub content: String,
    pub page_id: String,
    pub bloc_type: String,
    pub created_at: i64,
    pub updated_at: i64,
}

/// Wire record of a property: a key/value annotation on one block.
#[derive(Debug, PartialEq, Eq)]
pub struct PropsJson {
    pub id: Option<String>,
    pub key: String,
    pub value: String,
    pub bloc_id: String,
}

/// Abstract value of a `PageJson`.
pub struct PageJsonV {
    pub id: Option<Seq<char>>,
    pub path: Seq<char>,
    pub title: Seq<char>,
    pub cache: Seq<char>,
    pub created_at: i64,
    pub updated_at: i64,
}

/// Abstract value of a `BlocJson`.
pub struct BlocJsonV {
    pub id: Option<Seq<char>>,
    pub position: Seq<char>,
    pub content: Seq<char>,
    pub page_id: Seq<char>,
    pub bloc_type: Seq<char>,
    pub created_at: i64,
    pub updated_at: i64,
}

/// Abstract value of a `PropsJson`.
pub struct PropsJsonV {
    pub id: Option<Seq<char>>,
    pub key: Seq<char>,
    pub value: Seq<char>,
    pub bloc_id: Seq<char>,
}

impl View for PageJson {
    type V = PageJsonV;

    open spec fn view(&self) -> PageJsonV {
        PageJsonV {
            id: match self.id {
                Some(s) => Some(s@),
                None => None,
            },
            path: self.path@,
            title: self.title@,
            cache: self.cache@,
            created_at: self.created_at,
            updated_at: self.updated_at,
        }
    }
}

impl View for BlocJson {
    type V = BlocJsonV;

    open spec fn view(&self) -> BlocJsonV {
        BlocJsonV {
            id: match self.id {
                Some(s) => Some(s@),
                None => None,
            },
            position: self.position@,
            content: self.content@,
            page_id: self.page_id@,
            bloc_type: self.bloc_type@,
            created_at: self.created_at,
            updated_at: self.updated_at,
        }
    }
}

impl View for PropsJson {
    type V = PropsJsonV;

    open spec fn view(&self) -> PropsJsonV {
        PropsJsonV {
            id: match self.id {
                Some(s) => Some(s@),
                None => None,
            },
            key: self.key@,
            value: self.value@,
            bloc_id: self.bloc_id@,
        }
    }
}

// ---------------------------------------------------------------------------
// Stored rows: what the tables hold. A stored row always has an identifier,
// and a stored block carries the checksum derived from its content.
// ---------------------------------------------------------------------------

/// A stored page row.
pub struct PageRow {
    pub id: String,
    pub path: String,
    pub title: String,
    pub cache: String,
    pub created_at: i64,
    pub updated_at: i64,
}

/// A stored block row.
pub struct BlocRow {
    pub id: String,
    pub position: String,
    pub content: String,
    pub checksum: u64,
    pub page_id: String,
    pub bloc_type: String,
    pub created_at: i64,
    pub updated_at: i64,
}

/// A stored property row.
pub struct PropRow {
    pub id: String,
    pub key: String,
    pub value: String,
    pub bloc_id: String,
}

/// Abstract value of a stored page row.
pub struct PageV {
    pub id: Seq<char>,
    pub path: Seq<char>,
    pub title: Seq<char>,
    pub cache: Seq<char>,
    pub created_at: i64,
    pub updated_at: i64,
}

/// Abstract value of a stored block row.
pub struct BlocV {
    pub id: Seq<char>,
    pub position: Seq<char>,
    pub content: Seq<char>,
    pub checksum: u64,
    pub page_id: Seq<char>,
    pub bloc_type: Seq<char>,
    pub created_at: i64,
    pub updated_at: i64,
}

/// Abstract value of a stored property row.
pub struct PropV {
    pub id: Seq<char>,
    pub key: Seq<char>,
    pub value: Seq<char>,
    pub bloc_id: Seq<char>,
}

impl View for PageRow {
    type V = PageV;

    open spec fn view(&self) -> PageV {
        PageV {
            id: self.id@,
            path: self.path@,
            title: self.title@,
            cache: self.cache@,
            created_at: self.created_at,
            updated_at: self.updated_at,
        }
    }
}

impl View for BlocRow {
    type V = BlocV;

    open spec fn view(&self) -> BlocV {
        BlocV {
            id: self.id@,
            position: self.position@,
            content: self.content@,
            checksum: self.checksum,
            page_id: self.page_id@,
            bloc_type: self.bloc_type@,
            created_at: self.created_at,
            updated_at: self.updated_at,
        }
    }
}

impl View for PropRow {
    type V = PropV;

    open spec fn view(&self) -> PropV {
        PropV {
            id: self.id@,
            key: self.key@,
            value: self.value@,
            bloc_id: self.bloc_id@,
        }
    }
}

impl Clone for PageRow {
    fn clone(&self) -> (r: Self)
        ensures
            r@ == self@,
    {
        PageRow {
            id: self.id.clone(),
            path: self.path.clone(),
            title: self.title.clone(),
            cache: self.cache.clone(),
            created_at: self.created_at,
            updated_at: self.updated_at,
        }
    }
}

impl Clone for BlocRow {
    fn clone(&self) -> (r: Self)
        ensures
            r@ == self@,
    {
        BlocRow {
            id: self.id.clone(),
            position: self.position.clone(),
            content: self.content.clone(),
            checksum: self.checksum,
            page_id: self.page_id.clone(),
            bloc_type: self.bloc_type.clone(),
            created_at: self.created_at,
            updated_at: self.updated_at,
        }
    }
}

impl Clone for PropRow {
    fn clone(&self) -> (r: Self)
        ensures
            r@ == self@,
    {
        PropRow {
            id: self.id.clone(),
            key: self.key.clone(),
            value: self.value.clone(),
            bloc_id: self.bloc_id.clone(),
        }
    }
}

/// Views of a sequence of stored page rows.
pub open spec fn page_row_views(s: Seq<PageRow>) -> Seq<PageV> {
    s.map_values(|r: PageRow| r@)
}

/// Views of a sequence of stored block rows.
pub open spec fn bloc_row_views(s: Seq<BlocRow>) -> Seq<BlocV> {
    s.map_values(|r: BlocRow| r@)
}

/// Views of a sequence of stored property rows.
pub open spec fn prop_row_views(s: Seq<PropRow>) -> Seq<PropV> {
    s.map_values(|r: PropRow| r@)
}

/// Views of a sequence of block wire records.
pub open spec fn bloc_json_views(s: Seq<BlocJson>) -> Seq<BlocJsonV> {
    s.map_values(|b: BlocJson| b@)
}

/// Views of a sequence of page wire records.
pub open spec fn page_json_views(s: Seq<PageJson>) -> Seq<PageJsonV> {
    s.map_values(|p: PageJson| p@)
}

/// Views of a sequence of property wire records.
pub open spec fn props_json_views(s: Seq<PropsJson>) -> Seq<PropsJsonV> {
    s.map_values(|p: PropsJson| p@)
}

/// The wire records a sequence of stored block rows reads back as.
pub open spec fn bloc_rows_as_json(s: Seq<BlocV>) -> Seq<BlocJsonV> {
    s.map_values(|b: BlocV| bloc_row_as_json(b))
}

/// The wire records a sequence of stored property rows reads back as.
pub open spec fn prop_rows_as_json(s: Seq<PropV>) -> Seq<PropsJsonV> {
    s.map_values(|p: PropV| prop_row_as_json(p))
}

/// The wire record a stored page row reads back as.
pub open spec fn page_row_as_json(p: PageV) -> PageJsonV {
    PageJsonV {
        id: Some(p.id),
        path: p.path,
        title: p.title,
        cache: p.cache,
        created_at: p.created_at,
        updated_at: p.updated_at,
    }
}

/// The wire record a stored block row reads back as; the derived checksum
/// stays internal.
pub open spec fn bloc_row_as_json(b: BlocV) -> BlocJsonV {
    BlocJsonV {
        id: Some(b.id),
        position: b.position,
        content: b.content,
        page_id: b.page_id,
        bloc_type: b.bloc_type,
        created_at: b.created_at,
        updated_at: b.updated_at,
    }
}

/// The wire record a stored property row reads back as.
pub open spec fn prop_row_as_json(p: PropV) -> PropsJsonV {
    PropsJsonV {
        id: Some(p.id),
        key: p.key,
        value: p.value,
        bloc_id: p.bloc_id,
    }
}

} // verus!
