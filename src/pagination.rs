use vstd::prelude::*;

verus! {

/// Page size used when the client gives none, or a non-positive one.
pub const DEFAULT_PER_PAGE: i64 = 10;

/// The page size that is actually used for a requested one.
pub open spec fn effective_per_page(per_page: Option<i64>) -> int {
    match per_page {
        Some(p) => if p >= 1 { p as int } else { DEFAULT_PER_PAGE as int },
        None => DEFAULT_PER_PAGE as int,
    }
}

/// Number of the last page; an empty listing still has page 1.
pub open spec fn last_page(total: int, per_page: int) -> int {
    if total <= 0 { 1 } else { (total - 1) / per_page + 1 }
}

/// The requested page (1 when omitted), clamped into `[1, last_page]`.
pub open spec fn clamped_page(page: Option<i64>, total: int, per_page: int) -> int {
    let requested: int = match page { Some(p) => p as int, None => 1 };
    if requested < 1 {
        1
    } else if requested > last_page(total, per_page) {
        last_page(total, per_page)
    } else {
        requested
    }
}

/// Mathematical ceiling of `total / per_page`.
pub open spec fn ceil_div(total: int, per_page: int) -> int {
    (total + per_page - 1) / per_page
}

proof fn lemma_offset_bounded(total: int, per_page: int, page: int)
    requires
        total >= 1,
        per_page >= 1,
        1 <= page <= last_page(total, per_page),
    ensures
        0 <= per_page * (page - 1) <= total - 1,
{
    let q = (total - 1) / per_page;
    assert(per_page * q <= total - 1) by {
        vstd::arithmetic::div_mod::lemma_fundamental_div_mod(total - 1, per_page);
    }
    assert(0 <= page - 1 <= q);
    assert(per_page * (page - 1) <= per_page * q) by {
        vstd::arithmetic::mul::lemma_mul_inequality(page - 1, q, per_page);
        vstd::arithmetic::mul::lemma_mul_is_commutative(page - 1, per_page);
        vstd::arithmetic::mul::lemma_mul_is_commutative(q, per_page);
    }
    assert(0 <= per_page * (page - 1)) by (nonlinear_arith)
        requires page - 1 >= 0, per_page >= 1;
}

/// Resolves the client's paging parameters against the number of records.
/// Returns `(current_page, per_page, offset)`: the page size falls back to
/// 10 when omitted or not positive, the page is clamped into
/// `[1, last_page]`, and the offset skips the pages before it.
pub fn pagination(page: Option<i64>, per_page: Option<i64>, total: i64) -> (r: (i64, i64, i64))
    requires
        total >= 0,
    ensures
        r.1 == effective_per_page(per_page),
        r.0 == clamped_page(page, total as int, r.1 as int),
        r.2 == r.1 * (r.0 - 1),
        1 <= r.0 <= last_page(total as int, r.1 as int),
        0 <= r.2 <= if total == 0 { 0 } else { total - 1 },
{
    let page_number: i64 = match page {
        Some(p) => p,
        None => 1,
    };
    let per_page: i64 = match per_page {
        Some(p) => if p < 1 { DEFAULT_PER_PAGE } else { p },
        None => DEFAULT_PER_PAGE,
    };
    let max_page: i64 = if total == 0 { 1 } else { (total - 1) / per_page + 1 };
    let current_page: i64 = if page_number < 1 {
        1
    } else if page_number > max_page {
        max_page
    } else {
        page_number
    };
    proof {
        if total >= 1 {
            lemma_offset_bounded(total as int, per_page as int, current_page as int);
        }
    }
    let offset: i64 = per_page * (current_page - 1);
    (current_page, per_page, offset)
}

/// For any record count, the page size is the requested one when positive
/// and 10 otherwise, and the resolved page is at least 1; for a non-empty
/// listing it is at most `ceil(total / per_page)` (an empty one has page 1).
pub proof fn pagination_page_in_range(page: Option<i64>, per_page: Option<i64>, total: i64)
    requires
        total >= 0,
    ensures
        ({
            let pp = effective_per_page(per_page);
            let cur = clamped_page(page, total as int, pp);
            &&& 1 <= cur
            &&& total >= 1 ==> cur <= ceil_div(total as int, pp)
            &&& total == 0 ==> cur == 1
            &&& pp == (match per_page {
                Some(p) => if p >= 1 { p as int } else { 10 },
                None => 10,
            })
        }),
{
    let pp = effective_per_page(per_page);
    if total >= 1 {
        vstd::arithmetic::div_mod::lemma_div_plus_one(total - 1, pp);
        assert(ceil_div(total as int, pp) == last_page(total as int, pp));
        assert((total - 1) / pp >= 0) by {
            vstd::arithmetic::div_mod::lemma_div_pos_is_pos(total - 1, pp);
        }
    }
}

} // verus!
