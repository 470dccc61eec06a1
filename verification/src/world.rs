//! The interface augmenter: the selected world's export set, reduced to what
//! the adapter reads, and the pass that guarantees a zero-argument
//! initializer export before symbols are resolved.

use vstd::prelude::*;

verus! {

/// One exported function of the selected world, reduced to what the adapter
/// reads: its name, its parameter count, whether it returns a value, whether
/// it is freestanding (owned by the world itself rather than a resource),
/// and its documentation text.
pub struct WorldFunc {
    pub name: String,
    pub n_params: usize,
    pub has_result: bool,
    pub freestanding: bool,
    pub docs: String,
}

/// The export set of the selected world, in declaration order.
pub struct WorldExports {
    pub funcs: Vec<WorldFunc>,
}

/// The reserved initializer export key the augmenter guarantees.
pub open spec fn init_export_name() -> Seq<char> {
    "_initialize"@
}

/// Whether some export already carries the reserved initializer name.
pub open spec fn has_init(fs: Seq<WorldFunc>) -> bool {
    exists|i: int| 0 <= i < fs.len() && (#[trigger] fs[i]).name@ == init_export_name()
}

/// The synthetic initializer: the reserved name, zero parameters, no result,
/// freestanding, empty documentation.
pub open spec fn synthetic_init(f: WorldFunc) -> bool {
    &&& f.name@ == init_export_name()
    &&& f.n_params == 0
    &&& !f.has_result
    &&& f.freestanding
    &&& f.docs@ == Seq::<char>::empty()
}

/// What one augmentation run does: nothing when an initializer export is
/// already declared, otherwise it appends the synthetic one.
pub open spec fn augmented(before: Seq<WorldFunc>, after: Seq<WorldFunc>) -> bool {
    if has_init(before) {
        after == before
    } else {
        &&& after.len() == before.len() + 1
        &&& after.drop_last() == before
        &&& synthetic_init(after.last())
    }
}

/// Guarantee a zero-argument initializer export: pure data mutation, no
/// error conditions.
pub fn augment(w: &mut WorldExports)
    ensures
        augmented(old(w).funcs@, final(w).funcs@),
{
    let reserved = "_initialize".to_owned();
    let n = w.funcs.len();
    let mut i: usize = 0;
    while i < n
        invariant
            n == w.funcs@.len(),
            i <= n,
            w == old(w),
            forall|k: int| 0 <= k < i ==> (#[trigger] w.funcs@[k]).name@ != init_export_name(),
            reserved@ == init_export_name(),
        decreases n - i,
    {
        if w.funcs[i].name == reserved {
            proof {
                assert(has_init(w.funcs@));
            }
            return ;
        }
        i = i + 1;
    }
    proof {
        assert(!has_init(w.funcs@));
    }
    let ghost prev = w.funcs@;
    w.funcs.push(
        WorldFunc {
            name: reserved,
            n_params: 0,
            has_result: false,
            freestanding: true,
            docs: String::new(),
        },
    );
    proof {
        assert(w.funcs@.drop_last() =~= prev);
    }
}

/// Idempotent augmentation: a second run on an already-augmented export set
/// changes nothing, so running the augmenter twice yields the export set of
/// running it once.
pub proof fn lemma_augment_idempotent(
    a: Seq<WorldFunc>,
    b: Seq<WorldFunc>,
    c: Seq<WorldFunc>,
)
    requires
        augmented(a, b),
        augmented(b, c),
    ensures
        c == b,
{
    if has_init(a) {
        assert(b == a);
    } else {
        assert(b.last().name@ == init_export_name());
        assert(has_init(b));
    }
}

} // verus!
