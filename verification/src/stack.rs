//! The layout of a new program's stack: the argument strings, the array of
//! pointers to them and the closing null pointer.

use vstd::prelude::*;
use vstd::bytes::{spec_u64_to_le_bytes, u64_to_le_bytes};
use crate::frames::{write_into, zeroed};

verus! {

/// The greatest multiple of eight that is not above `x`.
pub open spec fn align_down8(x: int) -> int {
    x - x % 8
}

/// Where the array of pointers starts on a stack that ends at `top`: one
/// pointer for each argument and one for the closing null below the top.
pub open spec fn argv_base_of(top: int, args: Seq<Seq<u8>>) -> int {
    top - 8 * (args.len() + 1)
}

/// The lowest address in use once the first `k` arguments are placed: each
/// goes, with its closing zero byte, right below what is there, and where
/// `align` holds its start is moved down to a multiple of eight.
pub open spec fn cursor(top: int, args: Seq<Seq<u8>>, k: int, align: bool) -> int
    decreases k,
{
    if k <= 0 {
        argv_base_of(top, args)
    } else {
        let c = cursor(top, args, k - 1, align) - (args[k - 1].len() + 1);
        if align {
            align_down8(c)
        } else {
            c
        }
    }
}

/// The address of the first byte of argument `i`.
pub open spec fn ptr_of(top: int, args: Seq<Seq<u8>>, i: int, align: bool) -> int {
    cursor(top, args, i + 1, align)
}

/// The stack pointer: the start of the last argument, moved down to a
/// multiple of eight.
pub open spec fn sp_of(top: int, args: Seq<Seq<u8>>, align: bool) -> int {
    align_down8(cursor(top, args, args.len() as int, align))
}

/// Whether address `b` holds a byte of argument `i`.
pub open spec fn in_arg(top: int, args: Seq<Seq<u8>>, align: bool, i: int, b: int) -> bool {
    ptr_of(top, args, i, align) <= b < ptr_of(top, args, i, align) + args[i].len()
}

/// Whether address `b` holds a byte of one of the first `k` arguments.
pub open spec fn in_some_arg(top: int, args: Seq<Seq<u8>>, align: bool, k: int, b: int) -> bool {
    exists|i: int| 0 <= i < k && #[trigger] in_arg(top, args, align, i, b)
}

/// The cursor only moves down, and each argument lies wholly below the one
/// before it and below the array of pointers.
pub proof fn lemma_cursor_order(top: int, args: Seq<Seq<u8>>, align: bool, i: int, j: int)
    requires
        0 <= i <= j <= args.len(),
    ensures
        cursor(top, args, j, align) <= cursor(top, args, i, align),
        i < j ==> cursor(top, args, j, align) + args[j - 1].len() + 1 <= cursor(
            top,
            args,
            i,
            align,
        ),
    decreases j - i,
{
    if i < j {
        lemma_cursor_order(top, args, align, i, j - 1);
    }
}

/// Where the parts of a stack lie.
pub struct StackPlan {
    /// The stack pointer.
    pub sp: usize,
    /// The address of the array of pointers.
    pub argv_base: usize,
    /// The address of each argument, in order.
    pub ptrs: Vec<usize>,
}

/// Places the arguments on a stack that ends at `top` and may take `limit`
/// bytes; `None` where they need more.
pub fn plan_stack(top: usize, limit: usize, args: &Vec<Vec<u8>>, align: bool) -> (r: Option<
    StackPlan,
>)
    requires
        limit <= top,
    ensures
        r.is_some() <==> sp_of(top as int, args.deep_view(), align) >= top - limit,
        r matches Some(plan) ==> {
            &&& plan.sp == sp_of(top as int, args.deep_view(), align)
            &&& plan.argv_base == argv_base_of(top as int, args.deep_view())
            &&& plan.ptrs@.len() == args@.len()
            &&& forall|i: int|
                0 <= i < args@.len() ==> #[trigger] plan.ptrs@[i] == ptr_of(
                    top as int,
                    args.deep_view(),
                    i,
                    align,
                )
        },
{
    let ghost a = args.deep_view();
    let ghost t = top as int;
    let n = args.len();
    let floor = top - limit;
    assert(a.len() == n);
    proof {
        lemma_cursor_order(t, a, align, 0, n as int);
    }
    if n >= limit / 8 {
        return None;
    }
    let argv_base = top - 8 * (n + 1);
    let mut c = argv_base;
    let mut ptrs: Vec<usize> = Vec::new();
    let mut k: usize = 0;
    while k < n
        invariant
            k <= n,
            n == args@.len(),
            a == args.deep_view(),
            t == top,
            floor == top - limit,
            floor <= c,
            c == cursor(t, a, k as int, align),
            ptrs@.len() == k,
            forall|i: int| 0 <= i < k ==> #[trigger] ptrs@[i] == ptr_of(t, a, i, align),
        decreases n - k,
    {
        proof {
            lemma_cursor_order(t, a, align, k as int + 1, n as int);
        }
        let len = args[k].len();
        assert(a[k as int] == args@[k as int]@);
        assert(len == a[k as int].len());
        if len >= c - floor {
            return None;
        }
        c = c - (len + 1);
        if align {
            c = c - c % 8;
            if c < floor {
                return None;
            }
        }
        ptrs.push(c);
        k += 1;
    }
    let sp = c - c % 8;
    if sp < floor {
        return None;
    }
    Some(StackPlan { sp, argv_base, ptrs })
}

/// Whether `image` holds the bytes of the stack from the stack pointer up
/// to `top`: each argument at its address with a zero byte behind it; the
/// address of each argument, as eight bytes with the lowest first, in the
/// array of pointers, and eight zero bytes behind them; zero elsewhere.
pub open spec fn is_stack_image(image: Seq<u8>, top: int, args: Seq<Seq<u8>>, align: bool) -> bool {
    let sp = sp_of(top, args, align);
    let base = argv_base_of(top, args);
    &&& image.len() == top - sp
    &&& forall|i: int, j: int|
        0 <= i < args.len() && 0 <= j < args[i].len() ==> #[trigger] image[ptr_of(
            top,
            args,
            i,
            align,
        ) - sp + j] == args[i][j]
    &&& forall|i: int, j: int|
        0 <= i < args.len() && 0 <= j < 8 ==> #[trigger] image[base - sp + 8 * i + j]
            == spec_u64_to_le_bytes(ptr_of(top, args, i, align) as u64)[j]
    &&& forall|b: int|
        sp <= b < top && !(base <= b < base + 8 * args.len()) && !in_some_arg(top, args, align, args.len() as int, b) ==> #[trigger] image[b - sp] == 0
}

/// The bytes of the stack that `plan` lays out, from the stack pointer up
/// to `top`.
pub fn fill_stack(plan: &StackPlan, top: usize, args: &Vec<Vec<u8>>, align: bool) -> (image: Vec<u8>)
    requires
        0 <= sp_of(top as int, args.deep_view(), align),
        plan.sp == sp_of(top as int, args.deep_view(), align),
        plan.argv_base == argv_base_of(top as int, args.deep_view()),
        plan.ptrs@.len() == args@.len(),
        forall|i: int|
            0 <= i < args@.len() ==> #[trigger] plan.ptrs@[i] == ptr_of(
                top as int,
                args.deep_view(),
                i,
                align,
            ),
    ensures
        is_stack_image(image@, top as int, args.deep_view(), align),
{
    let ghost a = args.deep_view();
    let ghost t = top as int;
    let n = args.len();
    let sp = plan.sp;
    let base = plan.argv_base;
    assert(a.len() == n);
    proof {
        lemma_cursor_order(t, a, align, 0, n as int);
    }
    let mut image = zeroed(top - sp);
    let mut k: usize = 0;
    while k < n
        invariant
            k <= n,
            n == args@.len(),
            a == args.deep_view(),
            t == top,
            sp == sp_of(t, a, align),
            0 <= sp <= cursor(t, a, n as int, align),
            base == argv_base_of(t, a),
            plan.ptrs@.len() == n,
            forall|i: int| 0 <= i < n ==> #[trigger] plan.ptrs@[i] == ptr_of(t, a, i, align),
            image@.len() == top - sp,
            forall|i: int, j: int|
                0 <= i < k && 0 <= j < a[i].len() ==> #[trigger] image@[ptr_of(t, a, i, align) - sp
                    + j] == a[i][j],
            forall|b: int|
                sp <= b < top && !in_some_arg(t, a, align, k as int, b) ==> #[trigger] image@[b - sp] == 0,
        decreases n - k,
    {
        let ghost before = image@;
        let p = plan.ptrs[k];
        let arg = args[k].as_slice();
        assert(a[k as int] == args@[k as int]@);
        proof {
            lemma_cursor_order(t, a, align, k as int + 1, n as int);
            lemma_cursor_order(t, a, align, 0, k as int);
            lemma_cursor_order(t, a, align, k as int, k as int + 1);
        }
        write_into(&mut image, p - sp, arg);
        proof {
            assert forall|i: int, j: int| 0 <= i < k + 1 && 0 <= j < a[i].len() implies #[trigger] image@[ptr_of(
                t,
                a,
                i,
                align,
            ) - sp + j] == a[i][j] by {
                lemma_cursor_order(t, a, align, i + 1, n as int);
                lemma_cursor_order(t, a, align, 0, i + 1);
                if i < k {
                    lemma_cursor_order(t, a, align, i + 1, k as int + 1);
                    assert(before[ptr_of(t, a, i, align) - sp + j] == a[i][j]);
                } else {
                    assert(arg@[j] == a[i][j]);
                }
            }
            assert forall|b: int|
                sp <= b < top && !in_some_arg(t, a, align, k + 1, b) implies #[trigger] image@[b - sp] == 0 by {
                if in_some_arg(t, a, align, k as int, b) {
                    let i = choose|i: int| 0 <= i < k && #[trigger] in_arg(t, a, align, i, b);
                    assert(in_arg(t, a, align, i, b));
                    assert(in_some_arg(t, a, align, k + 1, b));
                }
                if in_arg(t, a, align, k as int, b) {
                    assert(in_some_arg(t, a, align, k + 1, b));
                }
                assert(before[b - sp] == 0);
            }
        }
        k += 1;
    }
    let mut k: usize = 0;
    while k < n
        invariant
            k <= n,
            n == args@.len(),
            a == args.deep_view(),
            a.len() == n,
            t == top,
            sp == sp_of(t, a, align),
            0 <= sp <= cursor(t, a, n as int, align),
            cursor(t, a, n as int, align) <= base,
            base == argv_base_of(t, a),
            plan.ptrs@.len() == n,
            forall|i: int| 0 <= i < n ==> #[trigger] plan.ptrs@[i] == ptr_of(t, a, i, align),
            image@.len() == top - sp,
            forall|i: int, j: int|
                0 <= i < n && 0 <= j < a[i].len() ==> #[trigger] image@[ptr_of(t, a, i, align) - sp
                    + j] == a[i][j],
            forall|i: int, j: int|
                0 <= i < k && 0 <= j < 8 ==> #[trigger] image@[base - sp + 8 * i + j]
                    == spec_u64_to_le_bytes(ptr_of(t, a, i, align) as u64)[j],
            forall|b: int|
                sp <= b < top && !(base <= b < base + 8 * k) && !in_some_arg(t, a, align, n as int, b) ==> #[trigger] image@[b - sp] == 0,
        decreases n - k,
    {
        let ghost before = image@;
        let p = plan.ptrs[k];
        let bytes = u64_to_le_bytes(p as u64);
        write_into(&mut image, base - sp + 8 * k, bytes.as_slice());
        proof {
            assert forall|i: int, j: int| 0 <= i < n && 0 <= j < a[i].len() implies #[trigger] image@[ptr_of(
                t,
                a,
                i,
                align,
            ) - sp + j] == a[i][j] by {
                lemma_cursor_order(t, a, align, i + 1, n as int);
                lemma_cursor_order(t, a, align, 0, i + 1);
                assert(before[ptr_of(t, a, i, align) - sp + j] == a[i][j]);
            }
            assert forall|i: int, j: int| 0 <= i < k + 1 && 0 <= j < 8 implies #[trigger] image@[base
                - sp + 8 * i + j] == spec_u64_to_le_bytes(ptr_of(t, a, i, align) as u64)[j] by {
                if i < k {
                    assert(before[base - sp + 8 * i + j] == spec_u64_to_le_bytes(
                        ptr_of(t, a, i, align) as u64,
                    )[j]);
                }
            }
            assert forall|b: int|
                sp <= b < top && !(base <= b < base + 8 * (k + 1)) && !in_some_arg(t, a, align, n as int, b) implies #[trigger] image@[b - sp] == 0 by {
                assert(before[b - sp] == 0);
            }
        }
        k += 1;
    }
    image
}

} // verus!
