use vstd::prelude::*;
use vstd::string::*;
use vstd::utf8::encode_utf8;

verus! {

// ---------------------------------------------------------------------------
// Numbers

/// Name of an HTTP status code.
pub fn get_status_code(code: i32) -> (r: &'static str)
    ensures
        r@ == if code == 200 {
            "OK"@
        } else if code == 404 {
            "Not Found"@
        } else if code == 500 {
            "Server Error"@
        } else {
            "Unknown"@
        },
{
    match code {
        200 => "OK",
        404 => "Not Found",
        500 => "Server Error",
        _ => "Unknown",
    }
}

/// Days in `years` years of 365 days.
pub fn calculate_days(years: i32) -> (r: i32)
    requires
        i32::MIN <= 365 * years <= i32::MAX,
    ensures
        r == 365 * years,
{
    years * 365
}

/// Seconds in `hours` hours.
pub fn convert_to_seconds(hours: i32) -> (r: i32)
    requires
        i32::MIN <= 3600 * hours <= i32::MAX,
    ensures
        r == 3600 * hours,
{
    hours * 60 * 60
}

/// Whether `index` is below 100.
pub fn check_array_bounds(index: usize) -> (r: bool)
    ensures
        r == (index < 100),
{
    index < 100
}

pub open spec fn fib(n: int) -> int
    decreases n,
{
    if n <= 1 {
        n
    } else {
        fib(n - 1) + fib(n - 2)
    }
}

proof fn lemma_fib_monotone(n: int)
    requires
        n >= 1,
    ensures
        fib(n - 1) <= fib(n),
        0 <= fib(n - 1),
    decreases n,
{
    if n > 2 {
        lemma_fib_monotone(n - 1);
        lemma_fib_monotone(n - 2);
    } else {
        assert(fib(0) == 0);
        assert(fib(1) == 1);
        assert(fib(2) == fib(1) + fib(0));
    }
}

/// `(fib(n), fib(n + 1))`, computed in `n` steps.
pub open spec fn fib_pair(n: int) -> (int, int)
    decreases n,
{
    if n <= 0 {
        (0, 1)
    } else {
        (fib_pair(n - 1).1, fib_pair(n - 1).0 + fib_pair(n - 1).1)
    }
}

proof fn lemma_fib_pair(n: int)
    requires
        n >= 0,
    ensures
        fib_pair(n) == (fib(n), fib(n + 1)),
    decreases n,
{
    if n > 0 {
        lemma_fib_pair(n - 1);
    } else {
        assert(fib(1) == 1);
    }
}

proof fn lemma_fib_46()
    ensures
        fib(46) == 1836311903,
{
    lemma_fib_pair(46);
    reveal_with_fuel(fib_pair, 47);
}

/// The `n`-th Fibonacci number; `n` at most 1 gives `n` back.
pub fn calculate_fibonacci(n: i32) -> (r: i32)
    requires
        n <= 46,
    ensures
        r == fib(n as int),
    decreases n,
{
    if n <= 1 {
        n
    } else {
        proof {
            lemma_fib_46();
            lemma_fib_bound(n as int);
        }
        calculate_fibonacci(n - 1) + calculate_fibonacci(n - 2)
    }
}

proof fn lemma_fib_bound(n: int)
    requires
        2 <= n <= 46,
    ensures
        0 <= fib(n - 1) + fib(n - 2) <= fib(46),
    decreases 46 - n,
{
    lemma_fib_monotone(n);
    lemma_fib_monotone(n - 1);
    if n < 46 {
        lemma_fib_bound(n + 1);
        lemma_fib_monotone(n + 1);
    }
}

/// Bytes above 128 are mirrored to `255 - b`; at most 1024 bytes are kept.
pub fn process_buffer(buffer: &[u8]) -> (r: Vec<u8>)
    ensures
        r@.len() == if buffer@.len() > 1024 {
            1024
        } else {
            buffer@.len()
        },
        forall|i: int| 0 <= i < r@.len() ==> #[trigger] r@[i] == if buffer@[i] > 128 {
            (255 - buffer@[i]) as u8
        } else {
            buffer@[i]
        },
{
    let mut result: Vec<u8> = Vec::new();
    let mut i: usize = 0;
    while i < buffer.len()
        invariant
            i <= buffer@.len(),
            result@.len() == i,
            forall|k: int| 0 <= k < i ==> #[trigger] result@[k] == if buffer@[k] > 128 {
                (255 - buffer@[k]) as u8
            } else {
                buffer@[k]
            },
        decreases buffer.len() - i,
    {
        let byte = buffer[i];
        if byte > 128 {
            result.push(255 - byte);
        } else {
            result.push(byte);
        }
        i = i + 1;
    }
    if result.len() > 1024 {
        result.truncate(1024);
    }
    result
}

pub const MAX_RETRIES: i32 = 3;

pub const DEFAULT_TIMEOUT: u64 = 30;

/// Retries times timeout.
pub fn good_example_with_constants() -> (r: i32)
    ensures
        r == 90,
{
    MAX_RETRIES * DEFAULT_TIMEOUT as i32
}

/// Reads the first, second and last of five values.
pub fn array_indexing_examples() -> (r: (i32, i32, i32))
    ensures
        r == (1i32, 2i32, 5i32),
{
    let arr: [i32; 5] = [1, 2, 3, 4, 5];
    let first = arr[0];
    let second = arr[1];
    let specific = arr[4];
    (first, second, specific)
}

// ---------------------------------------------------------------------------
// Errors

/// Twice `value`, which must not be negative.
pub fn library_function(value: i32) -> (r: i32)
    requires
        0 <= value,
        2 * value <= i32::MAX,
    ensures
        r == 2 * value,
{
    value * 2
}

/// 42 when `flag` is set.
pub fn inconsistent_error_types(flag: bool) -> (r: Option<i32>)
    ensures
        r == if flag {
            Some(42i32)
        } else {
            None::<i32>
        },
{
    if flag {
        Some(42)
    } else {
        None
    }
}

/// Always an error, worded by `flag`.
pub fn mixed_error_types(flag: bool) -> (r: Result<i32, String>)
    ensures
        r matches Err(e) && e@ == if flag {
            "String error"@
        } else {
            "Formatted error"@
        },
{
    if flag {
        Err(String::from_str("String error"))
    } else {
        Err(String::from_str("Formatted error"))
    }
}

/// The value inside a present, successful result.
pub fn nested_unwrapping() -> (r: i32)
    ensures
        r == 42,
{
    let data: Option<Result<i32, String>> = Some(Ok(42));
    match data {
        Some(Ok(v)) => v,
        _ => 0,
    }
}

// ---------------------------------------------------------------------------
// Sums

/// Sum of the values among the first `n` that satisfy `p`.
pub open spec fn sum_where(xs: Seq<i32>, p: spec_fn(i32) -> bool, n: int) -> int
    decreases n,
{
    if n <= 0 {
        0
    } else {
        sum_where(xs, p, n - 1) + if p(xs[n - 1]) {
            xs[n - 1] as int
        } else {
            0
        }
    }
}

/// Every partial sum of the values satisfying `p` fits in an `i32`.
pub open spec fn partial_sums_fit(xs: Seq<i32>, p: spec_fn(i32) -> bool) -> bool {
    forall|n: int| 0 <= n <= xs.len() ==> i32::MIN <= #[trigger] sum_where(xs, p, n) <= i32::MAX
}

/// Sum of the positive values.
pub fn sum_positive_numbers(numbers: &[i32]) -> (r: i32)
    requires
        partial_sums_fit(numbers@, |x: i32| x > 0),
    ensures
        r == sum_where(numbers@, |x: i32| x > 0, numbers@.len() as int),
{
    let ghost p = |x: i32| x > 0;
    let mut sum: i32 = 0;
    let mut i: usize = 0;
    while i < numbers.len()
        invariant
            i <= numbers@.len(),
            p == (|x: i32| x > 0),
            partial_sums_fit(numbers@, p),
            sum == sum_where(numbers@, p, i as int),
        decreases numbers.len() - i,
    {
        assert(i32::MIN <= sum_where(numbers@, p, i + 1) <= i32::MAX);
        let num = numbers[i];
        if num > 0 {
            sum = sum + num;
        }
        i = i + 1;
    }
    sum
}

/// Sum of the negative values.
pub fn sum_negative_numbers(numbers: &[i32]) -> (r: i32)
    requires
        partial_sums_fit(numbers@, |x: i32| x < 0),
    ensures
        r == sum_where(numbers@, |x: i32| x < 0, numbers@.len() as int),
{
    let ghost p = |x: i32| x < 0;
    let mut sum: i32 = 0;
    let mut i: usize = 0;
    while i < numbers.len()
        invariant
            i <= numbers@.len(),
            p == (|x: i32| x < 0),
            partial_sums_fit(numbers@, p),
            sum == sum_where(numbers@, p, i as int),
        decreases numbers.len() - i,
    {
        assert(i32::MIN <= sum_where(numbers@, p, i + 1) <= i32::MAX);
        let num = numbers[i];
        if num < 0 {
            sum = sum + num;
        }
        i = i + 1;
    }
    sum
}

/// Sum of the even values.
pub fn sum_even_numbers(numbers: &[i32]) -> (r: i32)
    requires
        partial_sums_fit(numbers@, |x: i32| x % 2 == 0),
    ensures
        r == sum_where(numbers@, |x: i32| x % 2 == 0, numbers@.len() as int),
{
    let ghost p = |x: i32| x % 2 == 0;
    let mut sum: i32 = 0;
    let mut i: usize = 0;
    while i < numbers.len()
        invariant
            i <= numbers@.len(),
            p == (|x: i32| x % 2 == 0),
            partial_sums_fit(numbers@, p),
            sum == sum_where(numbers@, p, i as int),
        decreases numbers.len() - i,
    {
        assert(i32::MIN <= sum_where(numbers@, p, i + 1) <= i32::MAX);
        let num = numbers[i];
        if num % 2 == 0 {
            sum = sum + num;
        }
        i = i + 1;
    }
    sum
}

// ---------------------------------------------------------------------------
// Branching

/// Twelve locals, added up.
pub fn too_many_locals() -> (r: i32)
    ensures
        r == 78,
{
    let var1: i32 = 1;
    let var2: i32 = 2;
    let var3: i32 = 3;
    let var4: i32 = 4;
    let var5: i32 = 5;
    let var6: i32 = 6;
    let var7: i32 = 7;
    let var8: i32 = 8;
    let var9: i32 = 9;
    let var10: i32 = 10;
    let var11: i32 = 11;
    let var12: i32 = 12;
    var1 + var2 + var3 + var4 + var5 + var6 + var7 + var8 + var9 + var10 + var11 + var12
}

/// The innermost value, or zero when any level is absent.
pub fn nested_pattern_matching(opt1: Option<Option<Option<i32>>>) -> (r: i32)
    ensures
        r == match opt1 {
            Some(Some(Some(v))) => v,
            _ => 0,
        },
{
    match opt1 {
        Some(opt2) => {
            match opt2 {
                Some(opt3) => {
                    match opt3 {
                        Some(value) => value,
                        None => 0,
                    }
                },
                None => 0,
            }
        },
        None => 0,
    }
}

/// The first of five values.
pub fn inefficient_destructuring(tuple: (i32, i32, i32, i32, i32)) -> (r: i32)
    ensures
        r == tuple.0,
{
    let (a, _, _, _, _) = tuple;
    a
}

/// The value, or zero.
pub fn redundant_match(opt: Option<i32>) -> (r: i32)
    ensures
        r == match opt {
            Some(x) => x,
            None => 0,
        },
{
    match opt {
        Some(x) => x,
        None => 0,
    }
}

/// Describes a triple of small numbers.
pub fn complex_pattern(x: i32, y: i32, z: i32) -> (r: &'static str)
    ensures
        r@ == if x == 0 && y == 0 && z == 0 {
            "all zero"@
        } else if (x, y, z) == (1i32, 0i32, 0i32) || (x, y, z) == (0i32, 1i32, 0i32) || (x, y, z) == (0i32, 0i32, 1i32) {
            "one is one"@
        } else if (x, y, z) == (1i32, 1i32, 0i32) || (x, y, z) == (1i32, 0i32, 1i32) || (x, y, z) == (0i32, 1i32, 1i32) {
            "two are one"@
        } else if x == 1 && y == 1 && z == 1 {
            "all one"@
        } else if 2 <= x <= 10 && 2 <= y <= 10 && 2 <= z <= 10 {
            "all in range"@
        } else {
            "other"@
        },
{
    if x == 0 && y == 0 && z == 0 {
        "all zero"
    } else if (x == 1 && y == 0 && z == 0) || (x == 0 && y == 1 && z == 0) || (x == 0 && y == 0 && z == 1) {
        "one is one"
    } else if (x == 1 && y == 1 && z == 0) || (x == 1 && y == 0 && z == 1) || (x == 0 && y == 1 && z == 1) {
        "two are one"
    } else if x == 1 && y == 1 && z == 1 {
        "all one"
    } else if 2 <= x && x <= 10 && 2 <= y && y <= 10 && 2 <= z && z <= 10 {
        "all in range"
    } else {
        "other"
    }
}

/// The sum of whichever values are present.
pub fn multiple_if_lets(opt1: Option<i32>, opt2: Option<i32>) -> (r: i32)
    requires
        (opt1, opt2) matches (Some(x), Some(y)) ==> i32::MIN <= x + y <= i32::MAX,
    ensures
        r == match (opt1, opt2) {
            (Some(x), Some(y)) => x + y,
            (Some(x), None) => x as int,
            (None, Some(y)) => y as int,
            (None, None) => 0,
        },
{
    if let Some(x) = opt1 {
        if let Some(y) = opt2 {
            x + y
        } else {
            x
        }
    } else if let Some(y) = opt2 {
        y
    } else {
        0
    }
}

/// "yes" or "no".
pub fn match_on_bool(flag: bool) -> (r: &'static str)
    ensures
        r@ == if flag {
            "yes"@
        } else {
            "no"@
        },
{
    if flag {
        "yes"
    } else {
        "no"
    }
}

/// Parity and digit count of a number below 100.
pub fn complex_guards(x: i32) -> (r: &'static str)
    ensures
        r@ == if 0 < x < 10 && x % 2 == 0 {
            "even single digit"@
        } else if 10 <= x < 100 && x % 2 == 0 {
            "even double digit"@
        } else if 0 < x < 10 {
            "odd single digit"@
        } else if 10 <= x < 100 {
            "odd double digit"@
        } else {
            "other"@
        },
{
    if x > 0 && x < 10 && x % 2 == 0 {
        "even single digit"
    } else if x >= 10 && x < 100 && x % 2 == 0 {
        "even double digit"
    } else if x > 0 && x < 10 && x % 2 != 0 {
        "odd single digit"
    } else if x >= 10 && x < 100 && x % 2 != 0 {
        "odd double digit"
    } else {
        "other"
    }
}

/// The value, or -1 for an error.
pub fn without_pattern_matching(result: Result<i32, String>) -> (r: i32)
    ensures
        r == match result {
            Ok(v) => v,
            Err(_) => -1i32,
        },
{
    match result {
        Ok(v) => v,
        Err(_) => -1,
    }
}

/// The boxed value.
pub fn unnecessary_box_pattern(boxed: Box<i32>) -> (r: i32)
    ensures
        r == *boxed,
{
    *boxed
}

/// "low" up to 10, "mid" up to 15, "high" up to 20.
pub fn overlapping_patterns(x: i32) -> (r: &'static str)
    ensures
        r@ == if 0 <= x <= 10 {
            "low"@
        } else if 5 <= x <= 15 {
            "mid"@
        } else if 10 <= x <= 20 {
            "high"@
        } else {
            "other"@
        },
{
    if 0 <= x && x <= 10 {
        "low"
    } else if 5 <= x && x <= 15 {
        "mid"
    } else if 10 <= x && x <= 20 {
        "high"
    } else {
        "other"
    }
}

/// The number of the pair.
pub fn simple_extraction(tuple: (i32, String)) -> (r: i32)
    ensures
        r == tuple.0,
{
    tuple.0
}

/// The sum of the pair, or zero.
pub fn inconsistent_patterns(opt: Option<(i32, i32)>) -> (r: i32)
    requires
        opt matches Some((x, y)) ==> i32::MIN <= x + y <= i32::MAX,
    ensures
        r == match opt {
            Some((x, y)) => x + y,
            None => 0,
        },
{
    match opt {
        Some((x, y)) => x + y,
        None => 0,
    }
}

// ---------------------------------------------------------------------------
// Ownership

/// The string itself.
pub fn unnecessary_clone_example(s: String) -> (r: String)
    ensures
        r@ == s@,
{
    s.clone()
}

/// The first argument.
pub fn complex_lifetime<'a, 'b, 'c, 'd>(x: &'a str, y: &'b str, z: &'c str, w: &'d str) -> (r: &'a str)
    ensures
        r == x,
{
    x
}

/// Moves a vector into a new binding.
pub fn move_violation() -> (r: Vec<i32>)
    ensures
        r@ == seq![1i32, 2, 3],
{
    let data: Vec<i32> = vec![1, 2, 3];
    let moved_data = data;
    moved_data
}

/// Length of `data`.
pub fn takes_mut_unnecessarily(data: &mut Vec<i32>) -> (r: usize)
    ensures
        r == old(data)@.len(),
        final(data)@ == old(data)@,
{
    data.len()
}

/// A boxed 42.
pub fn unnecessary_box() -> (r: Box<i32>)
    ensures
        *r == 42,
{
    Box::new(42)
}

/// The argument.
pub fn simple_function_with_lifetimes<'a>(x: &'a str) -> (r: &'a str)
    ensures
        r == x,
{
    x
}

/// Values behind a mutable borrow.
pub struct Container {
    pub data: Vec<i32>,
}

impl Container {
    /// Appends 1.
    pub fn bad_borrow_pattern(&mut self)
        ensures
            final(self).data@ == old(self).data@.push(1),
    {
        let first = &mut self.data;
        first.push(1);
    }
}

// ---------------------------------------------------------------------------
// Long functions

/// The value `high_complexity` computes, over the integers.
pub open spec fn high_complexity_value(x: int, y: int, z: int, flag: bool) -> int {
    if x > 0 {
        if y > 0 {
            if z > 0 {
                x + y + z
            } else if z < 0 {
                x + y - z
            } else {
                x + y
            }
        } else if y < 0 {
            if z > 0 {
                x - y + z
            } else if z < 0 {
                x - y - z
            } else {
                x - y
            }
        } else {
            x
        }
    } else if x < 0 {
        if flag {
            if y > 10 {
                -x + y
            } else if y > 5 {
                -x + y / 2
            } else {
                -x
            }
        } else {
            x
        }
    } else {
        if flag && y > 0 && z > 0 {
            y + z
        } else if !flag && y < 0 && z < 0 {
            -(y + z)
        } else {
            0
        }
    }
}

/// A case analysis over the signs of three numbers.
pub fn high_complexity(x: i32, y: i32, z: i32, flag: bool) -> (r: i32)
    requires
        i32::MIN <= high_complexity_value(x as int, y as int, z as int, flag) <= i32::MAX,
    ensures
        r == high_complexity_value(x as int, y as int, z as int, flag),
{
    let x = x as i64;
    let y = y as i64;
    let z = z as i64;
    let mut result: i64 = 0;
    if x > 0 {
        if y > 0 {
            if z > 0 {
                result = x + y + z;
            } else if z < 0 {
                result = x + y - z;
            } else {
                result = x + y;
            }
        } else if y < 0 {
            if z > 0 {
                result = x - y + z;
            } else if z < 0 {
                result = x - y - z;
            } else {
                result = x - y;
            }
        } else {
            result = x;
        }
    } else if x < 0 {
        if flag {
            if y > 10 {
                result = -x + y;
            } else if y > 5 {
                result = -x + y / 2;
            } else {
                result = -x;
            }
        } else {
            result = x;
        }
    } else {
        if flag && y > 0 && z > 0 {
            result = y + z;
        } else if !flag && y < 0 && z < 0 {
            result = -(y + z);
        }
    }
    result as i32
}

/// `0 - 1 + 2 - 3 + ...` over `0 .. i`.
pub open spec fn alternating_sum(i: int) -> int
    decreases i,
{
    if i <= 0 {
        0
    } else {
        alternating_sum(i - 1) + if (i - 1) % 2 == 0 {
            i - 1
        } else {
            -(i - 1)
        }
    }
}

proof fn lemma_alternating_sum_bounds(i: int)
    requires
        0 <= i <= 10,
    ensures
        -5 <= alternating_sum(i) <= 4,
        i == 10 ==> alternating_sum(i) == -5,
{
    reveal_with_fuel(alternating_sum, 11);
}

/// The value `multiple_violations` computes, over the integers.
pub open spec fn multiple_violations_value(a: int, b: int, c: int, d: int, e: int) -> int {
    let base = if a > 0 && b > 0 && c > 0 && d > 0 {
        a + b + c + d
    } else {
        0
    };
    let bonus = if 0 <= e <= 9 {
        e + 1
    } else {
        0
    };
    base + bonus + alternating_sum(10)
}

/// Adds the four values when all are positive, a bonus picked by `e`, and an
/// alternating sum over `0 .. 10`.
pub fn multiple_violations(a: i32, b: i32, c: i32, d: i32, e: i32) -> (r: i32)
    requires
        a > 0 && b > 0 && c > 0 && d > 0 ==> a + b + c + d + 14 <= i32::MAX,
    ensures
        r == multiple_violations_value(a as int, b as int, c as int, d as int, e as int),
{
    let mut result: i32 = 0;
    if a > 0 {
        if b > 0 {
            if c > 0 {
                if d > 0 {
                    result = a + b + c + d;
                }
            }
        }
    }
    match e {
        0 => result += 1,
        1 => result += 2,
        2 => result += 3,
        3 => result += 4,
        4 => result += 5,
        5 => result += 6,
        6 => result += 7,
        7 => result += 8,
        8 => result += 9,
        9 => result += 10,
        _ => result += 0,
    }
    let ghost start = result as int;
    let mut i: i32 = 0;
    while i < 10
        invariant
            0 <= i <= 10,
            0 <= start <= i32::MAX - 4,
            result == start + alternating_sum(i as int),
        decreases 10 - i,
    {
        proof {
            lemma_alternating_sum_bounds(i as int);
            lemma_alternating_sum_bounds(i + 1);
        }
        if i % 2 == 0 {
            result += i;
        } else {
            result -= i;
        }
        i += 1;
    }
    proof {
        lemma_alternating_sum_bounds(10);
    }
    result
}

// ---------------------------------------------------------------------------
// Validation

/// Whether `c` has the Unicode `Alphabetic` property.
pub uninterp spec fn alphabetic(c: char) -> bool;

/// Whether `c` has the Unicode `White_Space` property: tab to carriage
/// return, space, next line, no-break space, ogham space mark, the spaces from
/// en quad to hair space, the line and paragraph separators, narrow no-break
/// space, medium mathematical space and ideographic space.
pub open spec fn whitespace(c: char) -> bool {
    let u = c as u32;
    (9 <= u <= 13) || u == 0x20 || u == 0x85 || u == 0xA0 || u == 0x1680 || (0x2000 <= u <= 0x200A)
        || u == 0x2028 || u == 0x2029 || u == 0x202F || u == 0x205F || u == 0x3000
}

/// Relies on `char::is_alphabetic`: the answer depends on `c` alone.
#[verifier::external_body]
fn is_alphabetic(c: char) -> (r: bool)
    ensures
        r == alphabetic(c),
{
    c.is_alphabetic()
}

/// The same answer as `char::is_whitespace`, from the property's code points.
fn is_whitespace(c: char) -> (r: bool)
    ensures
        r == whitespace(c),
{
    let u = c as u32;
    (9 <= u && u <= 13) || u == 0x20 || u == 0x85 || u == 0xA0 || u == 0x1680 || (0x2000 <= u && u
        <= 0x200A) || u == 0x2028 || u == 0x2029 || u == 0x202F || u == 0x205F || u == 0x3000
}

/// A name of 2 to 50 bytes made of letters and spaces.
pub open spec fn valid_name(name: Seq<char>) -> bool {
    &&& name.len() > 0
    &&& 2 <= encode_utf8(name).len() as usize <= 50
    &&& forall|i: int| 0 <= i < name.len() ==> alphabetic(#[trigger] name[i]) || whitespace(name[i])
}

/// An address of 5 to 100 bytes holding an `@`.
pub open spec fn valid_email(email: Seq<char>) -> bool {
    &&& email.len() > 0
    &&& email.contains('@')
    &&& 5 <= encode_utf8(email).len() as usize <= 100
}

fn name_ok(name: &String) -> (r: bool)
    ensures
        r == valid_name(name@),
{
    let s = name.as_str();
    let bytes = s.len();
    if s.is_empty() || bytes < 2 || bytes > 50 {
        return false;
    }
    let n = s.unicode_len();
    let mut i: usize = 0;
    while i < n
        invariant
            n == s@.len(),
            s@ == name@,
            name@.len() > 0,
            2 <= encode_utf8(name@).len() as usize <= 50,
            i <= n,
            forall|k: int| 0 <= k < i ==> alphabetic(#[trigger] s@[k]) || whitespace(s@[k]),
        decreases n - i,
    {
        let c = s.get_char(i);
        if !(is_alphabetic(c) || is_whitespace(c)) {
            return false;
        }
        i = i + 1;
    }
    true
}

fn email_ok(email: &String) -> (r: bool)
    ensures
        r == valid_email(email@),
{
    let s = email.as_str();
    let bytes = s.len();
    if s.is_empty() || bytes < 5 || bytes > 100 {
        return false;
    }
    let n = s.unicode_len();
    let mut i: usize = 0;
    while i < n
        invariant
            n == s@.len(),
            s@ == email@,
            email@.len() > 0,
            5 <= encode_utf8(email@).len() as usize <= 100,
            i <= n,
            forall|k: int| 0 <= k < i ==> s@[k] != '@',
        decreases n - i,
    {
        if s.get_char(i) == '@' {
            assert(email@[i as int] == '@');
            return true;
        }
        i = i + 1;
    }
    false
}

/// A registered user.
pub struct User {
    pub name: String,
    pub email: String,
    pub age: u32,
}

impl User {
    /// Whether the name is 2 to 50 bytes of letters and spaces.
    pub fn validate_name(&self) -> (r: bool)
        ensures
            r == valid_name(self.name@),
    {
        name_ok(&self.name)
    }

    /// Whether the email is 5 to 100 bytes and holds an `@`.
    pub fn validate_email(&self) -> (r: bool)
        ensures
            r == valid_email(self.email@),
    {
        email_ok(&self.email)
    }
}

/// An employee.
pub struct Employee {
    pub name: String,
    pub email: String,
    pub department: String,
}

impl Employee {
    /// Whether the name is 2 to 50 bytes of letters and spaces.
    pub fn validate_name(&self) -> (r: bool)
        ensures
            r == valid_name(self.name@),
    {
        name_ok(&self.name)
    }

    /// Whether the email is 5 to 100 bytes and holds an `@`.
    pub fn validate_email(&self) -> (r: bool)
        ensures
            r == valid_email(self.email@),
    {
        email_ok(&self.email)
    }
}

// ---------------------------------------------------------------------------
// Nested loops

/// Values that `deeply_nested_function` adds up: even, positive, below 100.
pub open spec fn counted(v: i32) -> bool {
    v > 0 && v % 2 == 0 && v < 100
}

pub open spec fn inner_sum(s: Seq<i32>, n: int) -> int
    decreases n,
{
    if n <= 0 {
        0
    } else {
        inner_sum(s, n - 1) + if counted(s[n - 1]) {
            s[n - 1] as int
        } else {
            0
        }
    }
}

pub open spec fn middle_sum(s: Seq<Vec<i32>>, n: int) -> int
    decreases n,
{
    if n <= 0 {
        0
    } else {
        middle_sum(s, n - 1) + inner_sum(s[n - 1]@, s[n - 1]@.len() as int)
    }
}

pub open spec fn outer_sum(s: Seq<Vec<Vec<i32>>>, n: int) -> int
    decreases n,
{
    if n <= 0 {
        0
    } else {
        outer_sum(s, n - 1) + middle_sum(s[n - 1]@, s[n - 1]@.len() as int)
    }
}

proof fn lemma_inner_mono(s: Seq<i32>, a: int, b: int)
    requires
        0 <= a <= b,
    ensures
        0 <= inner_sum(s, a) <= inner_sum(s, b),
    decreases b,
{
    if a < b {
        lemma_inner_mono(s, a, b - 1);
    } else if a > 0 {
        lemma_inner_mono(s, a - 1, a - 1);
    }
}

proof fn lemma_middle_mono(s: Seq<Vec<i32>>, a: int, b: int)
    requires
        0 <= a <= b,
    ensures
        0 <= middle_sum(s, a) <= middle_sum(s, b),
    decreases b,
{
    if b > 0 {
        lemma_inner_mono(s[b - 1]@, 0, s[b - 1]@.len() as int);
    }
    if a < b {
        lemma_middle_mono(s, a, b - 1);
    } else if a > 0 {
        lemma_middle_mono(s, a - 1, a - 1);
    }
}

proof fn lemma_outer_mono(s: Seq<Vec<Vec<i32>>>, a: int, b: int)
    requires
        0 <= a <= b,
    ensures
        0 <= outer_sum(s, a) <= outer_sum(s, b),
    decreases b,
{
    if b > 0 {
        lemma_middle_mono(s[b - 1]@, 0, s[b - 1]@.len() as int);
    }
    if a < b {
        lemma_outer_mono(s, a, b - 1);
    } else if a > 0 {
        lemma_outer_mono(s, a - 1, a - 1);
    }
}

/// Sum of the even positive values below 100, three levels deep.
pub fn deeply_nested_function(data: Vec<Vec<Vec<i32>>>) -> (r: i32)
    requires
        outer_sum(data@, data@.len() as int) <= i32::MAX,
    ensures
        r == outer_sum(data@, data@.len() as int),
{
    let mut sum: i32 = 0;
    let mut i: usize = 0;
    while i < data.len()
        invariant
            i <= data@.len(),
            outer_sum(data@, data@.len() as int) <= i32::MAX,
            sum == outer_sum(data@, i as int),
        decreases data.len() - i,
    {
        proof {
            lemma_outer_mono(data@, i + 1, data@.len() as int);
        }
        let outer = &data[i];
        let mut j: usize = 0;
        if outer.len() > 0 {
            while j < outer.len()
                invariant
                    i < data@.len(),
                    *outer == data@[i as int],
                    j <= outer@.len(),
                    outer_sum(data@, i + 1) <= i32::MAX,
                    sum == outer_sum(data@, i as int) + middle_sum(outer@, j as int),
                decreases outer.len() - j,
            {
                proof {
                    lemma_middle_mono(outer@, j + 1, outer@.len() as int);
                    lemma_middle_mono(outer@, j as int, j as int);
                    lemma_outer_mono(data@, i as int, i as int);
                }
                let middle = &outer[j];
                let mut k: usize = 0;
                if middle.len() > 0 {
                    while k < middle.len()
                        invariant
                            j < outer@.len(),
                            *middle == outer@[j as int],
                            k <= middle@.len(),
                            outer_sum(data@, i as int) + middle_sum(outer@, j + 1) <= i32::MAX,
                            sum == outer_sum(data@, i as int) + middle_sum(outer@, j as int) + inner_sum(middle@, k as int),
                            0 <= outer_sum(data@, i as int),
                            0 <= middle_sum(outer@, j as int),
                        decreases middle.len() - k,
                    {
                        proof {
                            lemma_inner_mono(middle@, k + 1, middle@.len() as int);
                        }
                        let inner = middle[k];
                        if inner > 0 {
                            if inner % 2 == 0 {
                                if inner < 100 {
                                    sum = sum + inner;
                                }
                            }
                        }
                        k = k + 1;
                    }
                }
                j = j + 1;
            }
        }
        proof {
            assert(outer@ == data@[i as int]@);
        }
        i = i + 1;
    }
    sum
}

// ---------------------------------------------------------------------------
// Status codes

/// The class of an HTTP status code, as a caller would log it.
pub fn status_class(code: i32) -> (r: &'static str)
    ensures
        r@ == if code == 200 || code == 201 || code == 204 {
            "Success"@
        } else if code == 400 || code == 401 || code == 403 || code == 404 {
            "Client Error"@
        } else if code == 500 || code == 502 || code == 503 {
            "Server Error"@
        } else {
            "Unknown"@
        },
{
    match code {
        200 | 201 | 204 => "Success",
        400 | 401 | 403 | 404 => "Client Error",
        500 | 502 | 503 => "Server Error",
        _ => "Unknown",
    }
}

/// The reason phrase of an HTTP status code.
pub fn process_status_code(code: i32) -> (r: String)
    ensures
        r@ == if code == 200 {
            "OK"@
        } else if code == 201 {
            "Created"@
        } else if code == 204 {
            "No Content"@
        } else if code == 400 {
            "Bad Request"@
        } else if code == 401 {
            "Unauthorized"@
        } else if code == 403 {
            "Forbidden"@
        } else if code == 404 {
            "Not Found"@
        } else if code == 500 {
            "Internal Server Error"@
        } else if code == 502 {
            "Bad Gateway"@
        } else if code == 503 {
            "Service Unavailable"@
        } else {
            "Unknown Status"@
        },
{
    let text = match code {
        200 => "OK",
        201 => "Created",
        204 => "No Content",
        400 => "Bad Request",
        401 => "Unauthorized",
        403 => "Forbidden",
        404 => "Not Found",
        500 => "Internal Server Error",
        502 => "Bad Gateway",
        503 => "Service Unavailable",
        _ => "Unknown Status",
    };
    String::from_str(text)
}

/// The first `n` strings, joined.
pub open spec fn joined(parts: Seq<String>, n: int) -> Seq<char>
    decreases n,
{
    if n <= 0 {
        Seq::empty()
    } else {
        joined(parts, n - 1) + parts[n - 1]@
    }
}

/// All strings, joined in order.
pub fn inefficient_string_building(parts: Vec<String>) -> (r: String)
    ensures
        r@ == joined(parts@, parts@.len() as int),
{
    let mut result = String::new();
    let mut i: usize = 0;
    while i < parts.len()
        invariant
            i <= parts@.len(),
            result@ == joined(parts@, i as int),
        decreases parts.len() - i,
    {
        result = result.concat(parts[i].as_str());
        i = i + 1;
    }
    result
}

/// Two copies of the input.
pub fn excessive_cloning(data: Vec<i32>) -> (r: (Vec<i32>, Vec<i32>))
    ensures
        r.0@ == data@,
        r.1@ == data@,
{
    let copy1 = data.clone();
    let copy2 = data.clone();
    proof {
        assert(copy1@ =~= data@);
        assert(copy2@ =~= data@);
    }
    (copy1, copy2)
}

// ---------------------------------------------------------------------------
// Messages chosen by a match

/// Severity levels of a status report.
#[derive(Clone, Copy, Debug, PartialEq, Eq, Structural)]
pub enum Status {
    Success,
    Warning,
    Error,
    Critical,
}

/// The line to log for `status`.
pub fn non_exhaustive_match(status: Status) -> (r: &'static str)
    ensures
        r@ == match status {
            Status::Success => "OK"@,
            Status::Error => "Error"@,
            _ => "Other"@,
        },
{
    match status {
        Status::Success => "OK",
        Status::Error => "Error",
        _ => "Other",
    }
}

/// The word for 1 or 2.
pub fn uses_unreachable(x: i32) -> (r: &'static str)
    requires
        x == 1 || x == 2,
    ensures
        r@ == if x == 1 {
            "One"@
        } else {
            "Two"@
        },
{
    if x == 1 {
        "One"
    } else {
        "Two"
    }
}

/// One more than the value, or 2 when there is none.
pub fn pattern_with_side_effects(opt: Option<i32>) -> (r: i32)
    requires
        opt matches Some(x) ==> x < i32::MAX,
    ensures
        r == match opt {
            Some(x) => x + 1,
            None => 2,
        },
{
    let mut counter: i32 = 0;
    match opt {
        Some(x) => {
            counter += 1;
            x + counter
        },
        None => {
            counter += 2;
            counter
        },
    }
}

/// The midpoint of the bounds 0 and 100.
pub fn function_with_mixed_comments() -> (r: i32)
    ensures
        r == 50,
{
    let left: i32 = 0;
    let right: i32 = 100;
    (left + right) / 2
}

// ---------------------------------------------------------------------------
// Statistics

/// Division rounding toward zero, as Rust's `/` on integers does.
pub open spec fn div_toward_zero(a: int, b: int) -> int {
    if a >= 0 {
        a / b
    } else {
        -((-a) / b)
    }
}

/// Sum of the first `n` values.
pub open spec fn total(xs: Seq<i32>, n: int) -> int
    decreases n,
{
    if n <= 0 {
        0
    } else {
        total(xs, n - 1) + xs[n - 1]
    }
}

/// The largest of 0 and the first `n` values.
pub open spec fn running_max(xs: Seq<i32>, n: int) -> int
    decreases n,
{
    if n <= 0 {
        0
    } else if xs[n - 1] > running_max(xs, n - 1) {
        xs[n - 1] as int
    } else {
        running_max(xs, n - 1)
    }
}

/// The smallest of `i32::MAX` and the first `n` values.
pub open spec fn running_min(xs: Seq<i32>, n: int) -> int
    decreases n,
{
    if n <= 0 {
        i32::MAX as int
    } else if xs[n - 1] < running_min(xs, n - 1) {
        xs[n - 1] as int
    } else {
        running_min(xs, n - 1)
    }
}

/// Sum of the squared distances of the first `n` values from `avg`.
pub open spec fn squares(xs: Seq<i32>, avg: int, n: int) -> int
    decreases n,
{
    if n <= 0 {
        0
    } else {
        squares(xs, avg, n - 1) + (xs[n - 1] - avg) * (xs[n - 1] - avg)
    }
}

pub open spec fn mean(xs: Seq<i32>) -> int {
    div_toward_zero(total(xs, xs.len() as int), xs.len() as int)
}

/// The sums stay within `i32`, and so do the squared distances from the mean.
pub open spec fn stats_fit(xs: Seq<i32>) -> bool {
    &&& forall|n: int| 0 <= n <= xs.len() ==> i32::MIN <= #[trigger] total(xs, n) <= i32::MAX
    &&& forall|n: int| 0 <= n <= xs.len() ==> #[trigger] squares(xs, mean(xs), n) <= i32::MAX
    &&& forall|i: int| 0 <= i < xs.len() ==> i32::MIN <= #[trigger] xs[i] - mean(xs) <= i32::MAX
}

/// Sum, mean, largest, smallest and variance of a set of values.
#[derive(Clone, Copy, Debug, PartialEq, Eq, Structural)]
pub struct Statistics {
    pub result: i32,
    pub average: i32,
    pub max: i32,
    pub min: i32,
    pub variance: i32,
}

proof fn lemma_squares_grow(xs: Seq<i32>, avg: int, n: int)
    requires
        0 <= n,
    ensures
        0 <= squares(xs, avg, n),
        forall|m: int| 0 <= m <= n ==> #[trigger] squares(xs, avg, m) <= squares(xs, avg, n),
    decreases n,
{
    if n > 0 {
        lemma_squares_grow(xs, avg, n - 1);
        let d = xs[n - 1] - avg;
        assert(d * d >= 0) by (nonlinear_arith);
    }
}

proof fn lemma_max_min_bounds(xs: Seq<i32>, n: int)
    requires
        0 <= n <= xs.len(),
    ensures
        0 <= running_max(xs, n) <= i32::MAX,
        i32::MIN <= running_min(xs, n) <= i32::MAX,
    decreases n,
{
    if n > 0 {
        lemma_max_min_bounds(xs, n - 1);
    }
}

/// The statistics the caller reports on `data`; `result` is the sum.
pub fn very_long_function(data: Vec<i32>) -> (r: Statistics)
    requires
        data@.len() > 0,
        data@.len() <= i32::MAX,
        stats_fit(data@),
    ensures
        r.result == total(data@, data@.len() as int),
        r.average == mean(data@),
        r.max == running_max(data@, data@.len() as int),
        r.min == running_min(data@, data@.len() as int),
        r.variance == squares(data@, mean(data@), data@.len() as int) / (data@.len() as int),
{
    let n = data.len();
    let mut result: i32 = 0;
    let mut i: usize = 0;
    while i < n
        invariant
            n == data@.len(),
            i <= n,
            stats_fit(data@),
            result == total(data@, i as int),
        decreases n - i,
    {
        assert(i32::MIN <= total(data@, i + 1) <= i32::MAX);
        result = result + data[i];
        i = i + 1;
    }
    let count = n as i32;
    let average = result / count;
    assert(average == mean(data@));
    let mut max: i32 = 0;
    let mut min: i32 = i32::MAX;
    let mut i: usize = 0;
    while i < n
        invariant
            n == data@.len(),
            i <= n,
            max == running_max(data@, i as int),
            min == running_min(data@, i as int),
        decreases n - i,
    {
        if data[i] > max {
            max = data[i];
        }
        if data[i] < min {
            min = data[i];
        }
        i = i + 1;
    }
    let mut sq: i32 = 0;
    let mut i: usize = 0;
    proof {
        lemma_squares_grow(data@, average as int, n as int);
    }
    while i < n
        invariant
            n == data@.len(),
            i <= n,
            stats_fit(data@),
            average == mean(data@),
            sq == squares(data@, average as int, i as int),
            forall|m: int| 0 <= m <= n ==> #[trigger] squares(data@, average as int, m) <= squares(data@, average as int, n as int),
            0 <= squares(data@, average as int, i as int),
        decreases n - i,
    {
        let d = data[i] - average;
        proof {
            lemma_squares_grow(data@, average as int, i + 1);
            assert(squares(data@, average as int, i + 1) <= i32::MAX);
            assert(d * d >= 0) by (nonlinear_arith);
            assert(d * d <= squares(data@, average as int, i + 1));
        }
        sq = sq + d * d;
        i = i + 1;
    }
    let variance = sq / count;
    Statistics { result, average, max, min, variance }
}

} // verus!
