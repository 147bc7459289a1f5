mod diff;
mod fallback;
mod geometry;
mod graph;
mod order;
mod reconcile;
mod shape;

pub use diff::{diff, lemma_diff_coverage, lemma_diff_no_change, spec_changed, spec_diff_acc};
pub use fallback::{bogo_merge, bogo_merge_v1, lemma_merge_bad_len};
pub use geometry::{
    lemma_touching_edges_do_not_intersect, spec_acc_as_box, spec_acc_empty, spec_acc_intersects,
    spec_acc_union, spec_contained_by, spec_intersects, spec_partially_overlaps, Box2d,
    Box2dOrEmpty, Error,
};
pub use graph::{build_dag, equiv, partner_set, spec_equiv, spec_parents, Dag};
pub use order::{
    check_merge, check_ordering, lemma_validator_soundness, spec_check_merge, spec_respects,
};
pub use reconcile::{
    merge_bad, merge_good, merge_good_index, merge_good_v1, merge_good_v2, spec_merge_bad,
    spec_merge_good, spec_merge_good_index, spec_merge_good_v1, spec_merge_good_v2,
};
pub use shape::{find, first_pos, ids, pick, Shape};
