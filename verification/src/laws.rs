//! The protocol's guarantees, stated and proved over the operation
//! contracts: construction enables invocation, the counter is
//! linearizable across invocations, and operations on a
//! never-constructed clause fail with `NotConstructed`.

use vstd::prelude::*;
use crate::types::{HandlerError, HelloWorldClauseV, MyResponseV};
use crate::store::{
    AttrV, StoreV, rv_get, rv_idx, counter_of, incremented, lemma_rv_get_set,
};
use crate::num::{parse_dec, dec_of_int, digits_val, lemma_dec_round_trip};
use crate::ops::{
    construct_post, invoke_post, render_post, invoke_output, data_record_v, state_record_v,
    data_name_of, data_pairs, render_body,
};

verus! {

/// The freshly written state record holds the counter at zero.
proof fn lemma_state_record_counter(c: HelloWorldClauseV)
    ensures
        rv_get(state_record_v(c), "counter"@) == Some(AttrV::N("0"@)),
        parse_dec("0"@) == Some(0int),
{
    reveal_strlit("_identifier");
    reveal_strlit("counter");
    reveal_strlit("0");
    let r = state_record_v(c);
    assert(r[0].0 != "counter"@) by {
        assert("_identifier"@.len() == 11);
        assert("counter"@.len() == 7);
    }
    let r1 = r.drop_first();
    assert(r1[0].0 == "counter"@);
    assert(rv_idx(r1, "counter"@) == 0);
    assert(rv_idx(r, "counter"@) == 1);
    assert(r[1].1 == AttrV::N("0"@));
    assert("0"@ =~= seq!['0']);
    let z = "0"@;
    assert(z.len() == 1);
    assert(z[0] == '0');
    assert(crate::num::all_digits(z));
    assert(z.drop_last() =~= Seq::<char>::empty());
    assert(digits_val(z) == digits_val(z.drop_last()) * 10 + crate::num::digit_val(z[0]));
    assert(digits_val(z) == 0);
    assert(parse_dec(z) == Some(0int));
}

/// The freshly written data record holds all four configuration
/// attributes under their stored names.
proof fn lemma_data_record_fields(c: HelloWorldClauseV)
    ensures
        rv_get(data_record_v(c), "name"@) == Some(AttrV::S(c.name)),
        rv_get(data_record_v(c), "_class"@) == Some(AttrV::S(c.class)),
        rv_get(data_record_v(c), "_identifier"@) == Some(AttrV::S(c.identifier)),
        rv_get(data_record_v(c), "clause_id"@) == Some(AttrV::S(c.clause_id)),
{
    reveal_strlit("_identifier");
    reveal_strlit("clause_id");
    reveal_strlit("_class");
    reveal_strlit("name");
    let r = data_record_v(c);
    let r1 = r.drop_first();
    let r2 = r1.drop_first();
    let r3 = r2.drop_first();
    assert("_identifier"@.len() == 11);
    assert("clause_id"@.len() == 9);
    assert("_class"@.len() == 6);
    assert("name"@.len() == 4);
    assert(r1[0] == r[1] && r1[1] == r[2] && r1[2] == r[3]);
    assert(r2[0] == r[2] && r2[1] == r[3]);
    assert(r3[0] == r[3]);

    assert(rv_idx(r, "_identifier"@) == 0);

    assert(rv_idx(r1, "clause_id"@) == 0);
    assert(rv_idx(r, "clause_id"@) == 1);

    assert(rv_idx(r2, "_class"@) == 0);
    assert(rv_idx(r1, "_class"@) == 1);
    assert(rv_idx(r, "_class"@) == 2);

    assert(rv_idx(r3, "name"@) == 0);
    assert(rv_idx(r2, "name"@) == 1);
    assert(rv_idx(r1, "name"@) == 2);
    assert(rv_idx(r, "name"@) == 3);
}

/// After a successful increment the counter reads one higher, and the
/// data record is untouched.
pub proof fn lemma_incremented_counter(s: StoreV)
    requires
        counter_of(s) is Ok,
        counter_of(s)->Ok_0 < i64::MAX as int,
    ensures
        counter_of(incremented(s)) == Ok::<int, HandlerError>(counter_of(s)->Ok_0 + 1),
        incremented(s).data == s.data,
{
    let rec = s.state->Some_0;
    let v = counter_of(s)->Ok_0;
    lemma_rv_get_set(rec, "counter"@, AttrV::N(dec_of_int(v + 1)));
    lemma_dec_round_trip(v + 1);
}

/// Construction enables invocation: after `construct`, an `invoke`
/// against the same instance succeeds, its output is the greeting line
/// for counter value one, and the constructed name stands in it
/// verbatim at position six.
pub proof fn lemma_construct_then_invoke(
    s0: StoreV,
    s1: StoreV,
    s2: StoreV,
    c: HelloWorldClauseV,
    class: Seq<char>,
    input: Seq<char>,
    out: Result<MyResponseV, HandlerError>,
)
    requires
        construct_post(s0, s1, c, Ok(c)),
        invoke_post(s1, s2, class, input, out),
    ensures
        out is Ok,
        out->Ok_0.output == invoke_output(c.name, input, 1),
        out->Ok_0.output.subrange(6, 6 + c.name.len() as int) == c.name,
{
    lemma_state_record_counter(c);
    assert(counter_of(s1) == Ok::<int, HandlerError>(0));
    lemma_data_record_fields(c);
    assert(data_name_of(s1) == Ok::<Seq<char>, HandlerError>(c.name));
    assert(out is Ok);
    let output = out->Ok_0.output;
    assert(output == invoke_output(c.name, input, 1));
    reveal_strlit("Hello ");
    assert("Hello "@.len() == 6);
    assert(output.subrange(6, 6 + c.name.len() as int) =~= c.name) by {
        assert forall|j: int| 0 <= j < c.name.len()
            implies output[6 + j] == c.name[j] by {
            assert(("Hello "@ + c.name)[6 + j] == c.name[j]);
        }
    }
}

/// Invoking a never-constructed instance fails with `NotConstructed`
/// and leaves the store as it was.
pub proof fn lemma_invoke_not_constructed(
    s0: StoreV,
    s1: StoreV,
    class: Seq<char>,
    input: Seq<char>,
    out: Result<MyResponseV, HandlerError>,
)
    requires
        s0.state is None,
        invoke_post(s0, s1, class, input, out),
    ensures
        out == Err::<MyResponseV, HandlerError>(HandlerError::NotConstructed),
        s1 == s0,
{
}

/// Rendering a never-constructed instance fails with `NotConstructed`.
pub proof fn lemma_render_not_constructed(
    s: StoreV,
    notify: Seq<char>,
    template: Seq<char>,
    out: Result<(Seq<char>, Seq<char>), HandlerError>,
)
    requires
        s.data is None,
        render_post(s, notify, template, out),
    ensures
        out == Err::<(Seq<char>, Seq<char>), HandlerError>(HandlerError::NotConstructed),
{
}

/// Rendering a constructed instance succeeds with the one outbound
/// body, and that body carries exactly the constructed class,
/// identifier, clause id and name.
pub proof fn lemma_render_after_construct(
    s0: StoreV,
    s1: StoreV,
    c: HelloWorldClauseV,
    notify: Seq<char>,
    template: Seq<char>,
    out: Result<(Seq<char>, Seq<char>), HandlerError>,
)
    requires
        construct_post(s0, s1, c, Ok(c)),
        render_post(s1, notify, template, out),
    ensures
        out is Ok,
        out->Ok_0.1 == render_body(data_record_v(c), notify, template),
        data_pairs(data_record_v(c)) == seq![
            ("$class"@, c.class),
            ("$identifier"@, c.identifier),
            ("clauseId"@, c.clause_id),
            ("name"@, c.name),
        ],
{
    lemma_data_record_fields(c);
    assert(data_pairs(data_record_v(c)) =~= seq![
        ("$class"@, c.class),
        ("$identifier"@, c.identifier),
        ("clauseId"@, c.clause_id),
        ("name"@, c.name),
    ]);
}

/// Counter values seen through the store after `k` increments.
proof fn lemma_counter_trace(stores: Seq<StoreV>, rets: Seq<int>, c0: int, k: int)
    requires
        stores.len() == rets.len() + 1,
        counter_of(stores[0]) == Ok::<int, HandlerError>(c0),
        c0 + rets.len() <= i64::MAX as int,
        forall|j: int| 0 <= j < rets.len() ==> #[trigger] stores[j + 1] == incremented(stores[j])
            && rets[j] == counter_of(stores[j])->Ok_0 + 1,
        0 <= k <= rets.len(),
    ensures
        counter_of(stores[k]) == Ok::<int, HandlerError>(c0 + k),
    decreases k,
{
    if k > 0 {
        lemma_counter_trace(stores, rets, c0, k - 1);
        assert(stores[k - 1 + 1] == incremented(stores[k - 1]));
        lemma_incremented_counter(stores[k - 1]);
    }
}

/// Linearizability of the counter: across any run of increments the
/// returned values are the consecutive integers following the initial
/// counter — no duplicates, no gaps — and the final counter equals the
/// initial value plus the number of increments.
pub proof fn lemma_counter_linearizable(stores: Seq<StoreV>, rets: Seq<int>, c0: int)
    requires
        stores.len() == rets.len() + 1,
        counter_of(stores[0]) == Ok::<int, HandlerError>(c0),
        c0 + rets.len() <= i64::MAX as int,
        forall|j: int| 0 <= j < rets.len() ==> #[trigger] stores[j + 1] == incremented(stores[j])
            && rets[j] == counter_of(stores[j])->Ok_0 + 1,
    ensures
        counter_of(stores.last()) == Ok::<int, HandlerError>(c0 + rets.len()),
        forall|j: int| 0 <= j < rets.len() ==> #[trigger] rets[j] == c0 + j + 1,
        forall|j1: int, j2: int| 0 <= j1 < rets.len() && 0 <= j2 < rets.len() && j1 != j2
            ==> rets[j1] != rets[j2],
{
    assert forall|j: int| 0 <= j < rets.len() implies #[trigger] rets[j] == c0 + j + 1 by {
        lemma_counter_trace(stores, rets, c0, j);
        assert(stores[j + 1] == incremented(stores[j]));
        assert(rets[j] == counter_of(stores[j])->Ok_0 + 1);
    }
    lemma_counter_trace(stores, rets, c0, rets.len() as int);
    assert(stores.last() == stores[rets.len() as int]);
}

} // verus!

