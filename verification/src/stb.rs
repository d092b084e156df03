//! A decoded block-variant tabular dataset with row access: row zero of
//! the grid holds the column labels, and the remaining rows are entries.

use vstd::prelude::*;

use crate::error::DataError;
use crate::st::{read_st, read_st_header, st_all_cells_ok, st_cell_bytes, st_cell_count,
    st_header_spec};
use crate::text::lossy_of;
use crate::util_binary::ByteSource;

verus! {

/// A fully decoded dataset: `entry_count` rows of `field_count` strings,
/// where the first row conventionally holds the column labels.
#[derive(Clone, Debug)]
pub struct StbReadData {
    entry_count: usize,
    field_count: usize,
    strings: Vec<String>,
}

impl StbReadData {
    /// The number of rows, the label row included.
    pub closed spec fn spec_entry_count(&self) -> int {
        self.entry_count as int
    }

    /// The number of columns.
    pub closed spec fn spec_field_count(&self) -> int {
        self.field_count as int
    }

    /// All cells in row-major order.
    pub closed spec fn spec_strings(&self) -> Seq<String> {
        self.strings@
    }

    /// The grid is complete: one string per declared cell.
    pub open spec fn wf(&self) -> bool {
        self.spec_strings().len() == self.spec_entry_count() * self.spec_field_count()
    }

    pub fn entry_count(&self) -> (n: usize)
        ensures
            n == self.spec_entry_count(),
    {
        self.entry_count
    }

    pub fn field_count(&self) -> (n: usize)
        ensures
            n == self.spec_field_count(),
    {
        self.field_count
    }

    /// The column labels: the first row of the grid.
    pub fn field_names(&self) -> (r: &[String])
        requires
            self.wf(),
            self.spec_entry_count() >= 1,
        ensures
            r@ == self.spec_strings().subrange(0, self.spec_field_count()),
    {
        proof {
            assert(self.spec_field_count() <= self.spec_entry_count() * self.spec_field_count())
                by (nonlinear_arith)
                requires
                    self.spec_entry_count() >= 1,
                    self.spec_field_count() >= 0,
            ;
        }
        vstd::slice::slice_subrange(self.strings.as_slice(), 0, self.field_count)
    }

    /// The `index`-th entry row, not counting the label row: entry 0 is
    /// the grid's row 1.
    pub fn entry(&self, index: usize) -> (r: &[String])
        requires
            self.wf(),
            index + 2 <= self.spec_entry_count(),
        ensures
            r@ == self.spec_strings().subrange(
                (index + 1) * self.spec_field_count(),
                (index + 2) * self.spec_field_count(),
            ),
    {
        let len: usize = self.strings.len();
        proof {
            assert((index + 1) * self.spec_field_count() <= (index + 2) * self.spec_field_count()
                <= self.spec_entry_count() * self.spec_field_count() && (index + 1)
                * self.spec_field_count() + self.spec_field_count() == (index + 2)
                * self.spec_field_count()) by (nonlinear_arith)
                requires
                    index + 2 <= self.spec_entry_count(),
                    self.spec_field_count() >= 0,
            ;
        }
        let offset: usize = (index + 1) * self.field_count;
        vstd::slice::slice_subrange(self.strings.as_slice(), offset, offset + self.field_count)
    }
}

/// Decodes a whole block-variant dataset. Fails with `FormatError` when
/// the header, the pointer table, or any cell is malformed.
pub fn read_stb(source: &mut ByteSource) -> (r: Result<StbReadData, DataError>)
    ensures
        final(source).bytes() == old(source).bytes(),
        st_header_spec(old(source).bytes(), false) is None ==> r == Err::<StbReadData, DataError>(
            DataError::FormatError,
        ),
        st_header_spec(old(source).bytes(), false) matches Some(h) ==> {
            let data = old(source).bytes();
            &&& (st_cell_count(h) > usize::MAX || !st_all_cells_ok(data, h)) ==> r == Err::<
                StbReadData,
                DataError,
            >(DataError::FormatError)
            &&& (st_cell_count(h) <= usize::MAX && st_all_cells_ok(data, h)) ==> {
                &&& r matches Ok(d)
                &&& d.wf()
                &&& d.spec_entry_count() == h.entry_count
                &&& d.spec_field_count() == h.field_count
                &&& forall|k: int|
                    0 <= k < st_cell_count(h) ==> (#[trigger] d.spec_strings()[k])@ == lossy_of(
                        st_cell_bytes(data, h, k).unwrap(),
                    )
            }
        },
{
    let header = match read_st_header(source, false) {
        Ok(h) => h,
        Err(e) => { return Err(DataError::FormatError) },
    };
    let outcome = match read_st(source, false) {
        Ok(o) => o,
        Err(e) => { return Err(e) },
    };
    Ok(
        StbReadData {
            entry_count: header.entry_count as usize,
            field_count: header.field_count as usize,
            strings: outcome.strings,
        },
    )
}

} // verus!
