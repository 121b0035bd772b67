//! Filter options, the filter capability trait, and the name-to-filter
//! registry that dispatches an invocation to a concrete filter.

use vstd::prelude::*;

use crate::assets::AssetFilterError;

verus! {

/// An option passed to an asset filter.
pub enum AssetFilterOption {
    Flag,
    Bool(bool),
    Text(String),
    TextList(Vec<String>),
}

pub enum AssetFilterOptionView {
    Flag,
    Bool(bool),
    Text(Seq<char>),
    TextList(Seq<Seq<char>>),
}

impl View for AssetFilterOption {
    type V = AssetFilterOptionView;

    open spec fn view(&self) -> AssetFilterOptionView {
        match self {
            AssetFilterOption::Flag => AssetFilterOptionView::Flag,
            AssetFilterOption::Bool(b) => AssetFilterOptionView::Bool(*b),
            AssetFilterOption::Text(s) => AssetFilterOptionView::Text(s@),
            AssetFilterOption::TextList(l) => AssetFilterOptionView::TextList(l.deep_view()),
        }
    }
}

impl Clone for AssetFilterOption {
    fn clone(&self) -> (r: AssetFilterOption)
        ensures
            r@ == self@,
    {
        match self {
            AssetFilterOption::Flag => AssetFilterOption::Flag,
            AssetFilterOption::Bool(b) => AssetFilterOption::Bool(*b),
            AssetFilterOption::Text(s) => AssetFilterOption::Text(s.clone()),
            AssetFilterOption::TextList(l) => {
                let l2 = l.clone();
                proof {
                    assert(l2@ =~= l@);
                }
                AssetFilterOption::TextList(l2)
            },
        }
    }
}

/// Equality of filter options over their views.
pub fn option_eq(a: &AssetFilterOption, b: &AssetFilterOption) -> (r: bool)
    ensures
        r == (a@ == b@),
{
    match (a, b) {
        (AssetFilterOption::Flag, AssetFilterOption::Flag) => true,
        (AssetFilterOption::Bool(x), AssetFilterOption::Bool(y)) => *x == *y,
        (AssetFilterOption::Text(x), AssetFilterOption::Text(y)) => *x == *y,
        (AssetFilterOption::TextList(x), AssetFilterOption::TextList(y)) => crate::assets::vec_string_eq(
            x,
            y,
        ),
        _ => false,
    }
}

/// `Some(true)` if the option is set and is a flag, `Some(false)` if it is
/// not set, `None` if it has another type.
pub fn option_is_flag(option: Option<AssetFilterOption>) -> (r: Option<bool>)
    ensures
        r == (match option {
            Some(AssetFilterOption::Flag) => Some(true),
            None => Some(false),
            Some(_) => None::<bool>,
        }),
{
    match option {
        Some(AssetFilterOption::Flag) => Some(true),
        None => Some(false),
        _ => None,
    }
}

/// The option's boolean value, or `None` if it has another type.
pub fn get_bool(option: AssetFilterOption) -> (r: Option<bool>)
    ensures
        r == (match option {
            AssetFilterOption::Bool(value) => Some(value),
            _ => None::<bool>,
        }),
{
    match option {
        AssetFilterOption::Bool(value) => Some(value),
        _ => None,
    }
}

/// The option's string value, or `None` if it has another type.
pub fn get_string(option: AssetFilterOption) -> (r: Option<String>)
    ensures
        r == (match option {
            AssetFilterOption::Text(value) => Some(value),
            _ => None::<String>,
        }),
{
    match option {
        AssetFilterOption::Text(value) => Some(value),
        _ => None,
    }
}

/// The option's string-list value, or `None` if it has another type.
pub fn get_string_list(option: AssetFilterOption) -> (r: Option<Vec<String>>)
    ensures
        r == (match option {
            AssetFilterOption::TextList(value) => Some(value),
            _ => None::<Vec<String>>,
        }),
{
    match option {
        AssetFilterOption::TextList(value) => Some(value),
        _ => None,
    }
}

/// A filter capability: consumes the input assets' bytes in order and
/// produces the output asset's bytes, or rejects them with a host-defined
/// error. Opaque to the engine.
pub trait AssetFilter<E> where E: AssetFilterError {
    fn process_asset_file(
        &self,
        input_files: &Vec<Vec<u8>>,
        options: &Vec<(String, AssetFilterOption)>,
    ) -> Result<Vec<u8>, E>;
}

/// An immutable name-to-filter mapping, built once per process.
pub struct AssetFilterRegistry<E, F> where E: AssetFilterError, F: AssetFilter<E> {
    filters: Vec<(String, F)>,
    marker: core::marker::PhantomData<E>,
}

impl<E, F> AssetFilterRegistry<E, F> where E: AssetFilterError, F: AssetFilter<E> {
    /// The registered filter names.
    pub closed spec fn filter_names(&self) -> Seq<Seq<char>> {
        self.filters@.map_values(|p: (String, F)| p.0@)
    }

    /// Whether a filter of this name is registered.
    pub open spec fn has_filter(&self, name: Seq<char>) -> bool {
        self.filter_names().contains(name)
    }

    /// Creates a filter registry from a list of named filters.
    pub fn new(filters: Vec<(String, F)>) -> (r: AssetFilterRegistry<E, F>)
        ensures
            r.filter_names() == filters@.map_values(|p: (String, F)| p.0@),
    {
        AssetFilterRegistry { filters, marker: core::marker::PhantomData }
    }

    /// Runs the filter called `filter_name` on the given inputs. Returns
    /// `None` exactly when no such filter is registered; otherwise the
    /// filter's own result, propagated verbatim.
    pub fn process_asset_file(
        &self,
        filter_name: &String,
        input_files: &Vec<Vec<u8>>,
        options: &Vec<(String, AssetFilterOption)>,
    ) -> (r: Option<Result<Vec<u8>, E>>)
        ensures
            r is Some <==> self.has_filter(filter_name@),
    {
        let mut i: usize = 0;
        while i < self.filters.len()
            invariant
                0 <= i <= self.filters.len(),
                forall|j: int| 0 <= j < i ==> self.filter_names()[j] != filter_name@,
            decreases self.filters.len() - i,
        {
            if self.filters[i].0 == *filter_name {
                proof {
                    assert(self.filter_names()[i as int] == filter_name@);
                }
                return Some(self.filters[i].1.process_asset_file(input_files, options));
            }
            i += 1;
        }
        proof {
            assert(forall|j: int|
                0 <= j < self.filter_names().len() ==> self.filter_names()[j] != filter_name@);
        }
        None
    }
}

} // verus!
