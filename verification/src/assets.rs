//! Asset manifest model: sources, per-asset data, the manifest itself, and
//! the error type shared by the whole crate.

use vstd::prelude::*;

use crate::asset_filter::{AssetFilterOption, AssetFilterOptionView};

verus! {

/// Marker for host-defined filter error payloads.
pub trait AssetFilterError {}

/// Error kinds of the engine. The payload names the offending path, asset
/// or filter; serialization problems carry the serializer's message.
#[derive(Debug)]
pub enum AssetErrorType<E> {
    IOError(String),
    JSONError(String),
    FilterError(E),
    AssetFilterNotFoundError(String),
    AssetNotFoundInManifestError(String),
    AssetPathError(String),
    AssetRecursionLimitError(String),
}

/// An engine error.
#[derive(Debug)]
pub struct AssetError<E> {
    pub error_type: AssetErrorType<E>,
}

impl<E> AssetError<E> {
    pub fn new(error_type: AssetErrorType<E>) -> (r: AssetError<E>)
        ensures
            r.error_type == error_type,
    {
        AssetError { error_type }
    }
}

pub type AssetResult<T, E> = Result<T, AssetError<E>>;

/// Where an asset's bytes come from.
pub enum AssetSource {
    /// A raw file, relative to the source directory.
    File(String),
    /// The output of a named filter over other assets.
    Filtered(AssetFiltered),
}

/// A filtered source: the filter to run, the assets it consumes in order,
/// and its options.
pub struct AssetFiltered {
    /// Filter name in the filter registry.
    pub filter_name: String,
    /// Input asset names, used positionally by the filter.
    pub input_names: Vec<String>,
    /// Further options passed to the filter, sorted by option name.
    pub options: Vec<(String, AssetFilterOption)>,
}

/// One asset's definition. Structural equality over all three fields is the
/// change-detection key for filtered assets.
pub struct AssetData {
    /// Optional base directory for the asset's file under the internal and
    /// target directories; must stay inside them.
    pub output_base_path: Option<String>,
    /// Extension stamped on the generated file.
    pub extension: String,
    /// Where the asset's bytes come from.
    pub source: AssetSource,
}

/// The user-authored manifest: all assets by name, and the ordered names
/// published to the target directory.
pub struct AssetManifest {
    pub assets: vstd::hash_map::StringHashMap<AssetData>,
    pub public_assets: Vec<String>,
}

pub enum AssetSourceView {
    File(Seq<char>),
    Filtered(AssetFilteredView),
}

#[verifier::ext_equal]
pub struct AssetFilteredView {
    pub filter_name: Seq<char>,
    pub input_names: Seq<Seq<char>>,
    pub options: Seq<(Seq<char>, AssetFilterOptionView)>,
}

#[verifier::ext_equal]
pub struct AssetDataView {
    pub output_base_path: Option<Seq<char>>,
    pub extension: Seq<char>,
    pub source: AssetSourceView,
}

#[verifier::ext_equal]
pub struct AssetManifestView {
    pub assets: Map<Seq<char>, AssetDataView>,
    pub public_assets: Seq<Seq<char>>,
}

impl View for AssetFiltered {
    type V = AssetFilteredView;

    open spec fn view(&self) -> AssetFilteredView {
        AssetFilteredView {
            filter_name: self.filter_name@,
            input_names: self.input_names.deep_view(),
            options: self.options@.map_values(
                |p: (String, AssetFilterOption)| (p.0@, p.1@),
            ),
        }
    }
}

impl View for AssetSource {
    type V = AssetSourceView;

    open spec fn view(&self) -> AssetSourceView {
        match self {
            AssetSource::File(p) => AssetSourceView::File(p@),
            AssetSource::Filtered(f) => AssetSourceView::Filtered(f@),
        }
    }
}

impl View for AssetData {
    type V = AssetDataView;

    open spec fn view(&self) -> AssetDataView {
        AssetDataView {
            output_base_path: match &self.output_base_path {
                Some(p) => Some(p@),
                None => None,
            },
            extension: self.extension@,
            source: self.source@,
        }
    }
}

impl View for AssetManifest {
    type V = AssetManifestView;

    open spec fn view(&self) -> AssetManifestView {
        AssetManifestView {
            assets: self.assets@.map_values(|d: AssetData| d@),
            public_assets: self.public_assets.deep_view(),
        }
    }
}

impl AssetManifest {
    /// An empty manifest.
    pub fn new() -> (r: AssetManifest)
        ensures
            r@.assets == Map::<Seq<char>, AssetDataView>::empty(),
            r@.public_assets.len() == 0,
    {
        let r = AssetManifest {
            assets: vstd::hash_map::StringHashMap::new(),
            public_assets: Vec::new(),
        };
        proof {
            assert(r@.assets =~= Map::<Seq<char>, AssetDataView>::empty());
        }
        r
    }

    /// Defines or replaces the asset called `name`.
    pub fn insert_asset(&mut self, name: String, data: AssetData)
        ensures
            final(self)@.assets == old(self)@.assets.insert(name@, data@),
            final(self)@.public_assets == old(self)@.public_assets,
    {
        self.assets.insert(name, data);
        proof {
            assert(final(self)@.assets =~= old(self)@.assets.insert(name@, data@));
        }
    }

    /// Appends a name to the published assets.
    pub fn push_public(&mut self, name: String)
        ensures
            final(self)@.assets == old(self)@.assets,
            final(self)@.public_assets == old(self)@.public_assets.push(name@),
    {
        self.public_assets.push(name);
        proof {
            assert(final(self)@.public_assets =~= old(self)@.public_assets.push(name@));
        }
    }
}

impl Clone for AssetFiltered {
    fn clone(&self) -> (r: AssetFiltered)
        ensures
            r@ == self@,
    {
        let input_names = self.input_names.clone();
        let mut options: Vec<(String, AssetFilterOption)> = Vec::new();
        let mut i: usize = 0;
        while i < self.options.len()
            invariant
                0 <= i <= self.options.len(),
                options@.len() == i,
                forall|j: int|
                    0 <= j < i ==> #[trigger] options@[j].0@ == self.options@[j].0@
                        && options@[j].1@ == self.options@[j].1@,
            decreases self.options.len() - i,
        {
            options.push((self.options[i].0.clone(), self.options[i].1.clone()));
            i += 1;
        }
        let r = AssetFiltered { filter_name: self.filter_name.clone(), input_names, options };
        proof {
            assert(r.input_names@ =~= self.input_names@);
            assert(r@.input_names =~= self@.input_names);
            assert(r@.options =~= self@.options);
            assert(r@ =~= self@);
        }
        r
    }
}

impl Clone for AssetSource {
    fn clone(&self) -> (r: AssetSource)
        ensures
            r@ == self@,
    {
        match self {
            AssetSource::File(p) => AssetSource::File(p.clone()),
            AssetSource::Filtered(f) => AssetSource::Filtered(f.clone()),
        }
    }
}

impl Clone for AssetData {
    fn clone(&self) -> (r: AssetData)
        ensures
            r@ == self@,
    {
        let r = AssetData {
            output_base_path: match &self.output_base_path {
                Some(p) => Some(p.clone()),
                None => None,
            },
            extension: self.extension.clone(),
            source: self.source.clone(),
        };
        proof {
            assert(r@ =~= self@);
        }
        r
    }
}

/// Element-wise string list equality.
pub fn vec_string_eq(a: &Vec<String>, b: &Vec<String>) -> (r: bool)
    ensures
        r == (a.deep_view() == b.deep_view()),
{
    if a.len() != b.len() {
        assert(a.deep_view().len() != b.deep_view().len());
        return false;
    }
    let mut i: usize = 0;
    while i < a.len()
        invariant
            0 <= i <= a.len(),
            a.len() == b.len(),
            forall|j: int| 0 <= j < i ==> a.deep_view()[j] == b.deep_view()[j],
        decreases a.len() - i,
    {
        if !(a[i] == b[i]) {
            assert(a.deep_view()[i as int] != b.deep_view()[i as int]);
            return false;
        }
        i += 1;
    }
    proof {
        assert(a.deep_view() =~= b.deep_view());
    }
    true
}

/// Equality of optional base paths.
fn opt_string_eq(a: &Option<String>, b: &Option<String>) -> (r: bool)
    ensures
        r == ((match a {
            Some(x) => Some(x@),
            None => None,
        }) == (match b {
            Some(y) => Some(y@),
            None => None,
        })),
{
    match (a, b) {
        (Some(x), Some(y)) => *x == *y,
        (None, None) => true,
        _ => false,
    }
}

/// Equality of option lists, element-wise over name and value.
fn options_eq(
    a: &Vec<(String, AssetFilterOption)>,
    b: &Vec<(String, AssetFilterOption)>,
) -> (r: bool)
    ensures
        r == (a@.map_values(|p: (String, AssetFilterOption)| (p.0@, p.1@)) == b@.map_values(
            |p: (String, AssetFilterOption)| (p.0@, p.1@),
        )),
{
    let ghost av = a@.map_values(|p: (String, AssetFilterOption)| (p.0@, p.1@));
    let ghost bv = b@.map_values(|p: (String, AssetFilterOption)| (p.0@, p.1@));
    if a.len() != b.len() {
        assert(av.len() != bv.len());
        return false;
    }
    let mut i: usize = 0;
    while i < a.len()
        invariant
            0 <= i <= a.len(),
            a.len() == b.len(),
            av == a@.map_values(|p: (String, AssetFilterOption)| (p.0@, p.1@)),
            bv == b@.map_values(|p: (String, AssetFilterOption)| (p.0@, p.1@)),
            forall|j: int| 0 <= j < i ==> av[j] == bv[j],
        decreases a.len() - i,
    {
        let name_ok = a[i].0 == b[i].0;
        let value_ok = crate::asset_filter::option_eq(&a[i].1, &b[i].1);
        if !(name_ok && value_ok) {
            assert(av[i as int] != bv[i as int]);
            return false;
        }
        assert(av[i as int] == bv[i as int]);
        i += 1;
    }
    proof {
        assert(av =~= bv);
    }
    true
}

/// Equality of asset sources over their views.
pub fn source_eq(a: &AssetSource, b: &AssetSource) -> (r: bool)
    ensures
        r == (a@ == b@),
{
    match (a, b) {
        (AssetSource::File(x), AssetSource::File(y)) => *x == *y,
        (AssetSource::Filtered(x), AssetSource::Filtered(y)) => {
            let names_ok = x.filter_name == y.filter_name;
            let inputs_ok = vec_string_eq(&x.input_names, &y.input_names);
            let options_ok = options_eq(&x.options, &y.options);
            let r = names_ok && inputs_ok && options_ok;
            proof {
                if r {
                    assert(x@ =~= y@);
                }
            }
            r
        },
        _ => false,
    }
}

/// Structural equality of asset definitions over their views: the
/// change-detection key for rebuilds.
pub fn data_eq(a: &AssetData, b: &AssetData) -> (r: bool)
    ensures
        r == (a@ == b@),
{
    let base_ok = opt_string_eq(&a.output_base_path, &b.output_base_path);
    let ext_ok = a.extension == b.extension;
    let source_ok = source_eq(&a.source, &b.source);
    let r = base_ok && ext_ok && source_ok;
    proof {
        if r {
            assert(a@ =~= b@);
        }
    }
    r
}

} // verus!
