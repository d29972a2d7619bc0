//! The decode result: the parsed version and the ordered pages.

use vstd::prelude::*;

use crate::page::{Page, PageV};

verus! {

/// A decoded fumen: its version and its ordered sequence of pages.
#[derive(Debug)]
pub struct Fumen {
    pub version: usize,
    pub pages: Vec<Page>,
}

/// The mathematical content of a fumen.
pub ghost struct FumenV {
    pub version: int,
    pub pages: Seq<PageV>,
}

impl View for Fumen {
    type V = FumenV;

    open spec fn view(&self) -> FumenV {
        FumenV {
            version: self.version as int,
            pages: self.pages@.map_values(|p: Page| p@),
        }
    }
}

impl Fumen {
    /// Every page of the fumen is well-formed.
    pub open spec fn wf(&self) -> bool {
        forall|i: int| 0 <= i < self.pages@.len() ==> (#[trigger] self.pages@[i]).wf()
    }
}

impl Default for Fumen {
    /// Version 0 and no pages.
    fn default() -> (r: Self)
        ensures
            r@.version == 0,
            r@.pages == Seq::<PageV>::empty(),
    {
        let r = Fumen { version: 0, pages: Vec::new() };
        proof {
            assert(r@.pages =~= Seq::<PageV>::empty());
        }
        r
    }
}

} // verus!
