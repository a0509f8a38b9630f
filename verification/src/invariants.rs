//! Proofs that the table operations keep the table's invariant: unique
//! names, unique ids, and exactly one default among any profiles.

use vstd::prelude::*;

use crate::model::{
    after_delete, default_index, has_name, has_room, index_of, is_plain, is_sealed, max_id,
    min_id_at, named_at, names_unique, next_id, one_default, sole_default, sole_plain, table_wf,
    upserted, with_default, TableShape,
};
use crate::profile::{ApiInfoView, RowView, SecretView};

verus! {

/// With unique names, the row found under a name is the row `index_of` picks.
pub proof fn lemma_index_of(rows: Seq<RowView>, name: Seq<char>, i: int)
    requires
        names_unique(rows),
        named_at(rows, name, i),
    ensures
        has_name(rows, name),
        index_of(rows, name) == i,
{
    let k = index_of(rows, name);
    assert(named_at(rows, name, k));
    if k < i {
        assert(rows[k].profile_name != rows[i].profile_name);
    } else if i < k {
        assert(rows[i].profile_name != rows[k].profile_name);
    }
}

/// Where exactly one row is the default, `default_index` is that row.
pub proof fn lemma_default_index(rows: Seq<RowView>, i: int)
    requires
        sole_default(rows, i),
    ensures
        one_default(rows),
        default_index(rows) == i,
{
    let k = default_index(rows);
    assert(sole_default(rows, k));
    assert(rows[k].is_default);
    assert(rows[i].is_default);
}

/// No id in the table exceeds `max_id`.
pub proof fn lemma_max_id(rows: Seq<RowView>, j: int)
    requires
        0 <= j < rows.len(),
    ensures
        rows[j].id <= max_id(rows),
        0 <= max_id(rows) <= i64::MAX,
    decreases rows.len(),
{
    if j < rows.len() - 1 {
        lemma_max_id(rows.drop_last(), j);
        assert(rows.drop_last()[j] == rows[j]);
    } else {
        lemma_max_id_bounds(rows.drop_last());
    }
}

/// `max_id` is never negative and always the id of a 64-bit row, or 0.
pub proof fn lemma_max_id_bounds(rows: Seq<RowView>)
    ensures
        0 <= max_id(rows) <= i64::MAX,
    decreases rows.len(),
{
    if rows.len() > 0 {
        lemma_max_id_bounds(rows.drop_last());
    }
}

/// A table that holds a row holds one whose id is smallest.
pub proof fn lemma_min_id_exists(rows: Seq<RowView>)
    requires
        rows.len() > 0,
    ensures
        exists|k: int| min_id_at(rows, k),
    decreases rows.len(),
{
    if rows.len() == 1 {
        assert(min_id_at(rows, 0));
    } else {
        let front = rows.drop_last();
        lemma_min_id_exists(front);
        let k = choose|k: int| min_id_at(front, k);
        let last = rows.len() - 1;
        if rows[last].id < front[k].id {
            assert forall|j: int| 0 <= j < rows.len() implies rows[last].id <= (
            #[trigger] rows[j]).id by {
                if j < last {
                    assert(front[j] == rows[j]);
                }
            }
            assert(min_id_at(rows, last));
        } else {
            assert(front[k] == rows[k]);
            assert forall|j: int| 0 <= j < rows.len() implies rows[k].id <= (
            #[trigger] rows[j]).id by {
                if j < last {
                    assert(front[j] == rows[j]);
                }
            }
            assert(min_id_at(rows, k));
        }
    }
}

/// Setting the default to a profile that exists keeps the invariant, and
/// leaves that profile as the one default.
pub proof fn lemma_with_default_wf(shape: TableShape, rows: Seq<RowView>, name: Seq<char>)
    requires
        table_wf(shape, rows),
        has_name(rows, name),
    ensures
        table_wf(shape, with_default(rows, name)),
        sole_default(with_default(rows, name), index_of(rows, name)),
{
    let k = index_of(rows, name);
    let out = with_default(rows, name);
    assert(named_at(rows, name, k));
    assert forall|j: int| 0 <= j < out.len() implies ((#[trigger] out[j]).is_default <==> j
        == k) by {
        if j < k {
            assert(rows[j].profile_name != rows[k].profile_name);
        } else if k < j {
            assert(rows[k].profile_name != rows[j].profile_name);
        }
    }
    assert(sole_default(out, k));
    assert forall|i: int, j: int| 0 <= i < j < out.len() implies (#[trigger] out[i]).profile_name
        != (#[trigger] out[j]).profile_name by {
        assert(rows[i].profile_name != rows[j].profile_name);
    }
    assert forall|i: int, j: int| 0 <= i < j < out.len() implies (#[trigger] out[i]).id != (
    #[trigger] out[j]).id by {
        assert(rows[i].id != rows[j].id);
    }
    if shape is Unencrypted {
        assert forall|i: int| 0 <= i < out.len() implies is_plain(#[trigger] out[i]) by {
            assert(is_plain(rows[i]));
        }
    }
    if shape is Encrypted {
        assert forall|i: int| 0 <= i < out.len() implies is_sealed(#[trigger] out[i]) by {
            assert(is_sealed(rows[i]));
        }
    }
}

/// Deleting one of several profiles keeps the invariant: the rest still has
/// exactly one default.
pub proof fn lemma_after_delete_wf(shape: TableShape, rows: Seq<RowView>, i: int)
    requires
        table_wf(shape, rows),
        rows.len() > 1,
        0 <= i < rows.len(),
    ensures
        table_wf(shape, after_delete(rows, i)),
        after_delete(rows, i).len() == rows.len() - 1,
{
    let rest = rows.remove(i);
    let out = after_delete(rows, i);
    assert forall|j: int| 0 <= j < rest.len() implies #[trigger] rest[j] == rows[if j < i {
        j
    } else {
        j + 1
    }] by {}
    let d = default_index(rows);
    assert(sole_default(rows, d));
    if rows[i].is_default {
        assert(d == i);
        lemma_min_id_exists(rest);
        let k = choose|k: int| min_id_at(rest, k);
        assert(min_id_at(rest, k));
        assert forall|j: int| 0 <= j < out.len() implies ((#[trigger] out[j]).is_default <==> j
            == k) by {
            let src = if j < i {
                j
            } else {
                j + 1
            };
            assert(rest[j] == rows[src]);
            assert(rows[src].is_default <==> src == d);
        }
        assert(sole_default(out, k));
    } else {
        assert(d != i);
        let dd = if d < i {
            d
        } else {
            d - 1
        };
        assert forall|j: int| 0 <= j < out.len() implies ((#[trigger] out[j]).is_default <==> j
            == dd) by {
            let src = if j < i {
                j
            } else {
                j + 1
            };
            assert(rest[j] == rows[src]);
            assert(rows[src].is_default <==> src == d);
        }
        assert(sole_default(out, dd));
    }
    assert forall|a: int, b: int| 0 <= a < b < out.len() implies (#[trigger] out[a]).profile_name
        != (#[trigger] out[b]).profile_name by {
        let sa = if a < i {
            a
        } else {
            a + 1
        };
        let sb = if b < i {
            b
        } else {
            b + 1
        };
        assert(rest[a] == rows[sa] && rest[b] == rows[sb]);
        assert(rows[sa].profile_name != rows[sb].profile_name);
    }
    assert forall|a: int, b: int| 0 <= a < b < out.len() implies (#[trigger] out[a]).id != (
    #[trigger] out[b]).id by {
        let sa = if a < i {
            a
        } else {
            a + 1
        };
        let sb = if b < i {
            b
        } else {
            b + 1
        };
        assert(rest[a] == rows[sa] && rest[b] == rows[sb]);
        assert(rows[sa].id != rows[sb].id);
    }
    if shape is Unencrypted {
        assert forall|a: int| 0 <= a < out.len() implies is_plain(#[trigger] out[a]) by {
            let sa = if a < i {
                a
            } else {
                a + 1
            };
            assert(rest[a] == rows[sa]);
            assert(is_plain(rows[sa]));
        }
    }
    if shape is Encrypted {
        assert forall|a: int| 0 <= a < out.len() implies is_sealed(#[trigger] out[a]) by {
            let sa = if a < i {
                a
            } else {
                a + 1
            };
            assert(rest[a] == rows[sa]);
            assert(is_sealed(rows[sa]));
        }
    }
}

/// Whether a pair of stored secrets fits a table of the given shape.
pub open spec fn fits(shape: TableShape, api_key: SecretView, api_secret: SecretView) -> bool {
    &&& shape is Unencrypted ==> api_key is Plain && api_secret is Plain
    &&& shape is Encrypted ==> api_key is Sealed && api_secret is Sealed
}

/// Saving a profile keeps the invariant, whatever default flag the caller
/// sends along.
pub proof fn lemma_upserted_wf(
    shape: TableShape,
    rows: Seq<RowView>,
    profile: ApiInfoView,
    api_key: SecretView,
    api_secret: SecretView,
)
    requires
        table_wf(shape, rows),
        shape is Unencrypted || shape is Encrypted,
        fits(shape, api_key, api_secret),
        has_room(rows, profile),
    ensures
        table_wf(shape, upserted(rows, profile, api_key, api_secret)),
        has_name(upserted(rows, profile, api_key, api_secret), profile.profile_name),
{
    let out = upserted(rows, profile, api_key, api_secret);
    let name = profile.profile_name;
    let at = if has_name(rows, name) {
        index_of(rows, name)
    } else {
        rows.len() as int
    };
    let flag = if has_name(rows, name) {
        profile.is_default || rows[at].is_default
    } else {
        profile.is_default || rows.len() == 0
    };
    if has_name(rows, name) {
        assert(named_at(rows, name, at));
    } else {
        assert forall|j: int| 0 <= j < rows.len() implies (#[trigger] rows[j]).profile_name
            != name by {
            if rows[j].profile_name == name {
                assert(named_at(rows, name, j));
            }
        }
        assert forall|j: int| 0 <= j < rows.len() implies (#[trigger] rows[j]).id < next_id(
            rows,
        ) by {
            lemma_max_id(rows, j);
        }
        lemma_max_id_bounds(rows);
    }
    assert(out[at].profile_name == name);
    assert(named_at(out, name, at));
    assert forall|a: int, b: int| 0 <= a < b < out.len() implies (#[trigger] out[a]).profile_name
        != (#[trigger] out[b]).profile_name by {
        if a < rows.len() && b < rows.len() {
            assert(rows[a].profile_name != rows[b].profile_name);
        } else {
            assert(rows[a].profile_name != name);
        }
    }
    assert forall|a: int, b: int| 0 <= a < b < out.len() implies (#[trigger] out[a]).id != (
    #[trigger] out[b]).id by {
        if a < rows.len() && b < rows.len() {
            assert(rows[a].id != rows[b].id);
        } else {
            assert(rows[a].id < next_id(rows));
        }
    }
    if shape is Unencrypted {
        assert forall|a: int| 0 <= a < out.len() implies is_plain(#[trigger] out[a]) by {
            if a != at {
                assert(is_plain(rows[a]));
            }
        }
    }
    if shape is Encrypted {
        assert forall|a: int| 0 <= a < out.len() implies is_sealed(#[trigger] out[a]) by {
            if a != at {
                assert(is_sealed(rows[a]));
            }
        }
    }
    if flag {
        assert forall|j: int| 0 <= j < out.len() implies ((#[trigger] out[j]).is_default <==> j
            == at) by {}
        assert(sole_default(out, at));
    } else {
        let d = default_index(rows);
        assert(sole_default(rows, d));
        assert(rows[d].is_default);
        assert(d != at);
        assert forall|j: int| 0 <= j < out.len() implies ((#[trigger] out[j]).is_default <==> j
            == d) by {
            if j < rows.len() && j != at {
                assert(rows[j].is_default <==> j == d);
            }
        }
        assert(sole_default(out, d));
    }
}

/// A table that holds one profile, in the clear and as the default, meets
/// the invariant of an unencrypted table.
pub proof fn lemma_sole_plain_wf(profile: ApiInfoView)
    ensures
        table_wf(TableShape::Unencrypted, sole_plain(profile)),
        sole_default(sole_plain(profile), 0),
{
    let out = sole_plain(profile);
    assert(sole_default(out, 0));
}

} // verus!
