use vstd::prelude::*;
use vstd::string::*;
use vstd::utf8::{encode_utf8, encode_utf8_valid_utf8, is_char_boundary_iff_not_is_continuation_byte};

verus! {

/// Identifier of a user.
pub type UserId = u64;

/// Longest retry count a built configuration gets by default.
pub const MAX_RETRY_COUNT: u32 = 3;

/// Timeout, in seconds, a built configuration gets by default.
pub const DEFAULT_TIMEOUT: u64 = 30;

/// Oldest age a profile may hold.
pub const MAX_AGE: u32 = 150;

/// A user's profile.
#[derive(Debug, Clone)]
pub struct UserProfile {
    /// Unique identifier.
    pub id: UserId,
    /// Display name.
    pub name: String,
    /// Age in years.
    pub age: u32,
}

/// Something that turns text into other text, or fails with a reason.
pub trait DataProcessor {
    /// Processes `data`.
    fn process(&self, data: &str) -> Result<String, ProcessError>;
}

/// Why processing failed.
#[derive(Debug)]
pub struct ProcessError {
    /// What went wrong.
    pub message: String,
}

/// Where a request stands.
#[derive(Clone, Copy, Debug, PartialEq, Eq, Structural)]
pub enum RequestStatus {
    Pending,
    Approved,
    Rejected,
}

impl UserProfile {
    /// A profile with the given fields.
    pub fn new(id: UserId, name: String, age: u32) -> (r: Self)
        ensures
            r.id == id,
            r.name@ == name@,
            r.age == age,
    {
        UserProfile { id, name, age }
    }

    /// The user's age.
    pub fn get_user_age(&self) -> (r: u32)
        ensures
            r == self.age,
    {
        self.age
    }

    /// Replaces the name.
    pub fn update_name(&mut self, name: String)
        ensures
            final(self).name@ == name@,
            final(self).id == old(self).id,
            final(self).age == old(self).age,
    {
        self.name = name;
    }

    /// A profile needs a name and an age of at most 150.
    pub fn validate(&self) -> (r: Result<(), ProcessError>)
        ensures
            r is Ok <==> (self.name@.len() > 0 && self.age <= MAX_AGE),
            r matches Err(e) ==> e.message@ == if self.name@.len() == 0 {
                "Name cannot be empty"@
            } else {
                "Invalid age"@
            },
    {
        if self.name.as_str().is_empty() {
            return Err(ProcessError { message: String::from_str("Name cannot be empty") });
        }
        if self.age > MAX_AGE {
            return Err(ProcessError { message: String::from_str("Invalid age") });
        }
        Ok(())
    }
}

/// The value, or zero.
pub fn handle_option_elegantly(value: Option<i32>) -> (r: i32)
    ensures
        r == match value {
            Some(v) => v,
            None => 0,
        },
{
    match value {
        Some(v) => v,
        None => 0,
    }
}

/// A sentence describing `status`.
pub fn process_status(status: RequestStatus) -> (r: &'static str)
    ensures
        r@ == match status {
            RequestStatus::Pending => "Request is pending"@,
            RequestStatus::Approved => "Request approved"@,
            RequestStatus::Rejected => "Request rejected"@,
        },
{
    match status {
        RequestStatus::Pending => "Request is pending",
        RequestStatus::Approved => "Request approved",
        RequestStatus::Rejected => "Request rejected",
    }
}

/// Length of `s` in bytes.
pub fn efficient_string_handling(s: &str) -> (r: usize)
    ensures
        r == s.spec_bytes().len() as usize,
{
    s.len()
}

/// Sum of the first `n` values.
pub open spec fn sum_prefix(data: Seq<i32>, n: int) -> int
    decreases n,
{
    if n <= 0 {
        0
    } else {
        sum_prefix(data, n - 1) + data[n - 1]
    }
}

/// Every partial sum of `data` fits in an `i32`.
pub open spec fn sums_fit(data: Seq<i32>) -> bool {
    forall|n: int| 0 <= n <= data.len() ==> i32::MIN <= #[trigger] sum_prefix(data, n) <= i32::MAX
}

/// Sum of the values.
pub fn process_vector(data: &[i32]) -> (r: i32)
    requires
        sums_fit(data@),
    ensures
        r == sum_prefix(data@, data@.len() as int),
{
    let mut total: i32 = 0;
    let mut i: usize = 0;
    while i < data.len()
        invariant
            i <= data@.len(),
            sums_fit(data@),
            total == sum_prefix(data@, i as int),
        decreases data.len() - i,
    {
        assert(i32::MIN <= sum_prefix(data@, i + 1) <= i32::MAX);
        total = total + data[i];
        i = i + 1;
    }
    total
}

/// Starts the user management system; there is nothing that can fail.
pub fn init() -> (r: Result<(), ProcessError>)
    ensures
        r is Ok,
{
    Ok(())
}

/// A copy of the value.
pub fn generic_function<T: Copy>(value: &T) -> (r: T)
    ensures
        r == *value,
{
    *value
}

/// Something that may hold an item.
pub trait Container {
    type ItemType;

    /// The item, if there is one.
    fn get_item(&self) -> Option<&Self::ItemType>;
}

/// Byte length of each item.
pub fn process_items(items: &[String]) -> (r: Vec<usize>)
    ensures
        r@.len() == items@.len(),
        forall|i: int| 0 <= i < items@.len() ==> #[trigger] r@[i] == encode_utf8(items@[i]@).len() as usize,
{
    let mut out: Vec<usize> = Vec::new();
    let mut i: usize = 0;
    while i < items.len()
        invariant
            i <= items@.len(),
            out@.len() == i,
            forall|k: int| 0 <= k < i ==> #[trigger] out@[k] == encode_utf8(items@[k]@).len() as usize,
        decreases items.len() - i,
    {
        out.push(items[i].as_str().len());
        i = i + 1;
    }
    out
}

/// The value at `index`, if there is one.
pub fn safe_array_access(data: &[i32], index: usize) -> (r: Option<i32>)
    ensures
        r == if index < data@.len() {
            Some(data@[index as int])
        } else {
            None::<i32>
        },
{
    if index < data.len() {
        Some(data[index])
    } else {
        None
    }
}

/// Builds a `Config`, with defaults for what is not set.
pub struct ConfigBuilder {
    pub timeout: Option<u64>,
    pub retries: Option<u32>,
}

/// A timeout in seconds and a number of retries.
pub struct Config {
    pub timeout: u64,
    pub retries: u32,
}

impl ConfigBuilder {
    /// A builder with nothing set.
    pub fn new() -> (r: Self)
        ensures
            r.timeout is None,
            r.retries is None,
    {
        ConfigBuilder { timeout: None, retries: None }
    }

    /// Sets the timeout.
    pub fn timeout(self, timeout: u64) -> (r: Self)
        ensures
            r.timeout == Some(timeout),
            r.retries == self.retries,
    {
        ConfigBuilder { timeout: Some(timeout), retries: self.retries }
    }

    /// Sets the number of retries.
    pub fn retries(self, retries: u32) -> (r: Self)
        ensures
            r.retries == Some(retries),
            r.timeout == self.timeout,
    {
        ConfigBuilder { timeout: self.timeout, retries: Some(retries) }
    }

    /// The configuration: what was set, defaults for the rest.
    pub fn build(self) -> (r: Config)
        ensures
            r.timeout == match self.timeout {
                Some(t) => t,
                None => DEFAULT_TIMEOUT,
            },
            r.retries == match self.retries {
                Some(n) => n,
                None => MAX_RETRY_COUNT,
            },
    {
        Config {
            timeout: match self.timeout {
                Some(t) => t,
                None => DEFAULT_TIMEOUT,
            },
            retries: match self.retries {
                Some(n) => n,
                None => MAX_RETRY_COUNT,
            },
        }
    }
}

/// Index of the first space byte at or after `i`, or the length.
pub open spec fn space_pos(b: Seq<u8>, i: int) -> int
    decreases b.len() - i,
{
    if 0 <= i < b.len() && b[i] != 32 {
        space_pos(b, i + 1)
    } else {
        i
    }
}

/// The bytes of `s` before its first space.
pub fn first_word(s: &str) -> (r: &str)
    ensures
        r.spec_bytes() == s.spec_bytes().subrange(0, space_pos(s.spec_bytes(), 0)),
{
    let bytes = s.as_bytes();
    let mut i: usize = 0;
    while i < bytes.len()
        invariant
            bytes@ == s.spec_bytes(),
            i <= bytes@.len(),
            space_pos(bytes@, i as int) == space_pos(bytes@, 0),
        decreases bytes.len() - i,
    {
        if bytes[i] == 32 {
            proof {
                encode_utf8_valid_utf8(s@);
                is_char_boundary_iff_not_is_continuation_byte(s.spec_bytes(), i as int);
            }
            let (head, _) = s.split_at(i);
            return head;
        }
        i = i + 1;
    }
    proof {
        assert(s.spec_bytes().subrange(0, bytes@.len() as int) =~= s.spec_bytes());
    }
    s
}

/// Index of the first comma at or after `i`, or the length.
pub open spec fn comma_pos(b: Seq<u8>, i: int) -> int
    decreases b.len() - i,
{
    if 0 <= i < b.len() && b[i] != 44 {
        comma_pos(b, i + 1)
    } else {
        i
    }
}

/// Value of the decimal digits `b[lo .. hi]`.
pub open spec fn digits_value(b: Seq<u8>, lo: int, hi: int) -> int
    decreases hi - lo,
{
    if hi <= lo {
        0
    } else {
        digits_value(b, lo, hi - 1) * 10 + (b[hi - 1] - 48)
    }
}

pub open spec fn all_digits(b: Seq<u8>, lo: int, hi: int) -> bool {
    forall|i: int| lo <= i < hi ==> 48 <= #[trigger] b[i] <= 57
}

/// What parsing `b[lo .. hi]` as an unsigned integer of at most `max` gives: an
/// optional `+`, then one digit or more, of value at most `max`.
pub open spec fn parse_unsigned(b: Seq<u8>, lo: int, hi: int, max: int) -> Option<int> {
    let start = if lo < hi && b[lo] == 43 {
        lo + 1
    } else {
        lo
    };
    if start < hi && all_digits(b, start, hi) && digits_value(b, start, hi) <= max {
        Some(digits_value(b, start, hi))
    } else {
        None
    }
}

proof fn lemma_digits_grow(b: Seq<u8>, lo: int, k: int, hi: int)
    requires
        lo <= k <= hi,
        all_digits(b, lo, hi),
    ensures
        0 <= digits_value(b, lo, k) <= digits_value(b, lo, hi),
    decreases hi - k,
{
    if k < hi {
        lemma_digits_grow(b, lo, k + 1, hi);
        lemma_digits_nonneg(b, lo, k);
    } else {
        lemma_digits_nonneg(b, lo, k);
    }
}

proof fn lemma_digits_nonneg(b: Seq<u8>, lo: int, k: int)
    requires
        lo <= k,
        all_digits(b, lo, k),
    ensures
        0 <= digits_value(b, lo, k),
    decreases k - lo,
{
    if lo < k {
        lemma_digits_nonneg(b, lo, k - 1);
    }
}

fn parse_number(b: &[u8], lo: usize, hi: usize, max: u64) -> (r: Option<u64>)
    requires
        lo <= hi <= b@.len(),
    ensures
        r matches Some(v) ==> parse_unsigned(b@, lo as int, hi as int, max as int) == Some(v as int),
        r is None ==> parse_unsigned(b@, lo as int, hi as int, max as int) is None,
{
    let start = if lo < hi && b[lo] == 43 {
        lo + 1
    } else {
        lo
    };
    if start >= hi {
        return None;
    }
    let mut k = start;
    while k < hi
        invariant
            start <= k <= hi <= b@.len(),
            lo <= start,
            start == (if lo < hi && b@[lo as int] == 43 { lo + 1 } else { lo as int }),
            all_digits(b@, start as int, k as int),
        decreases hi - k,
    {
        if !(48 <= b[k] && b[k] <= 57) {
            proof {
                assert(!(48 <= b@[k as int] <= 57));
            }
            return None;
        }
        k = k + 1;
    }
    let mut acc: u64 = 0;
    let mut k = start;
    while k < hi
        invariant
            start <= k <= hi <= b@.len(),
            lo <= start,
            start == (if lo < hi && b@[lo as int] == 43 { lo + 1 } else { lo as int }),
            all_digits(b@, start as int, hi as int),
            acc == digits_value(b@, start as int, k as int),
            acc <= max,
        decreases hi - k,
    {
        let d = (b[k] - 48) as u128;
        let next = (acc as u128) * 10 + d;
        assert(next == digits_value(b@, start as int, k + 1));
        if next > max as u128 {
            proof {
                lemma_digits_grow(b@, start as int, k + 1, hi as int);
            }
            return None;
        }
        acc = next as u64;
        k = k + 1;
    }
    Some(acc)
}

fn comma_from(b: &[u8], i: usize) -> (r: usize)
    requires
        i <= b@.len(),
    ensures
        r == comma_pos(b@, i as int),
        i <= r <= b@.len(),
        r < b@.len() ==> b@[r as int] == 44,
{
    let mut j = i;
    while j < b.len() && b[j] != 44
        invariant
            i <= j <= b@.len(),
            comma_pos(b@, j as int) == comma_pos(b@, i as int),
        decreases b.len() - j,
    {
        j = j + 1;
    }
    j
}

/// A record `id,name,age` has exactly two commas, and both numbers parse.
pub open spec fn record_ok(b: Seq<u8>) -> bool {
    let c1 = comma_pos(b, 0);
    let c2 = comma_pos(b, c1 + 1);
    &&& c1 < b.len()
    &&& c2 < b.len()
    &&& comma_pos(b, c2 + 1) == b.len()
    &&& parse_unsigned(b, 0, c1, u64::MAX as int) is Some
    &&& parse_unsigned(b, c2 + 1, b.len() as int, u32::MAX as int) is Some
}

/// Reads a profile from `id,name,age`.
pub fn process_user_data(data: &str) -> (r: Result<UserProfile, ProcessError>)
    ensures
        r is Ok <==> record_ok(data.spec_bytes()),
        r matches Ok(p) ==> {
            let b = data.spec_bytes();
            let c1 = comma_pos(b, 0);
            let c2 = comma_pos(b, c1 + 1);
            &&& Some(p.id as int) == parse_unsigned(b, 0, c1, u64::MAX as int)
            &&& encode_utf8(p.name@) == b.subrange(c1 + 1, c2)
            &&& Some(p.age as int) == parse_unsigned(b, c2 + 1, b.len() as int, u32::MAX as int)
        },
        r matches Err(e) ==> e.message@ == if comma_pos(data.spec_bytes(), 0) < data.spec_bytes().len()
            && comma_pos(data.spec_bytes(), comma_pos(data.spec_bytes(), 0) + 1) < data.spec_bytes().len()
            && comma_pos(data.spec_bytes(), comma_pos(data.spec_bytes(), comma_pos(data.spec_bytes(), 0) + 1) + 1)
            == data.spec_bytes().len() {
            "Invalid number"@
        } else {
            "Invalid data format"@
        },
{
    let b = data.as_bytes();
    let c1 = comma_from(b, 0);
    if c1 >= b.len() {
        return Err(ProcessError { message: String::from_str("Invalid data format") });
    }
    let c2 = comma_from(b, c1 + 1);
    if c2 >= b.len() || comma_from(b, c2 + 1) != b.len() {
        return Err(ProcessError { message: String::from_str("Invalid data format") });
    }
    let id = match parse_number(b, 0, c1, u64::MAX) {
        Some(v) => v,
        None => {
            return Err(ProcessError { message: String::from_str("Invalid number") });
        },
    };
    let age = match parse_number(b, c2 + 1, b.len(), u32::MAX as u64) {
        Some(v) => v as u32,
        None => {
            return Err(ProcessError { message: String::from_str("Invalid number") });
        },
    };
    proof {
        encode_utf8_valid_utf8(data@);
        is_char_boundary_iff_not_is_continuation_byte(data.spec_bytes(), c1 as int);
    }
    let (_, from_comma) = data.split_at(c1);
    proof {
        encode_utf8_valid_utf8(from_comma@);
        assert(from_comma.spec_bytes()[0] == 44u8);
        reveal_with_fuel(vstd::utf8::is_char_boundary, 2);
    }
    let (_, rest) = from_comma.split_at(1);
    proof {
        encode_utf8_valid_utf8(rest@);
        assert(rest.spec_bytes() =~= data.spec_bytes().subrange(c1 + 1, b@.len() as int));
        is_char_boundary_iff_not_is_continuation_byte(rest.spec_bytes(), c2 - c1 - 1);
    }
    let (name_part, _) = rest.split_at(c2 - c1 - 1);
    proof {
        assert(name_part.spec_bytes() =~= data.spec_bytes().subrange(c1 + 1, c2 as int));
    }
    Ok(UserProfile::new(id, String::from_str(name_part), age))
}

} // verus!
