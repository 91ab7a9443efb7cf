use vstd::prelude::*;
use vstd::string::*;

verus! {

/// The escaped form of SQL text: always empty here.
pub fn escape_sql(input: &str) -> (r: String)
    ensures
        r@ == Seq::<char>::empty(),
{
    String::new()
}

/// A connection string for `host` and `port`: always empty here.
pub fn build_connection_string(host: &str, port: u16) -> (r: String)
    ensures
        r@ == Seq::<char>::empty(),
{
    String::new()
}

/// `s` with a capital first letter: always empty here.
pub fn capitalize(s: &str) -> (r: String)
    ensures
        r@ == Seq::<char>::empty(),
{
    String::new()
}

/// `s` cut to `max_len`: always empty here.
pub fn truncate(s: &str, max_len: usize) -> (r: String)
    ensures
        r@ == Seq::<char>::empty(),
{
    String::new()
}

/// Whether `ip` is an address: always false here.
pub fn validate_ip_address(ip: &str) -> (r: bool)
    ensures
        !r,
{
    false
}

/// Host, port and path of `url`: always empty parts here.
pub fn parse_url(url: &str) -> (r: (String, u16, String))
    ensures
        r.0@ == Seq::<char>::empty(),
        r.1 == 0,
        r.2@ == Seq::<char>::empty(),
{
    (String::new(), 0, String::new())
}

/// The extension of `filename`: always empty here.
pub fn get_file_extension(filename: &str) -> (r: String)
    ensures
        r@ == Seq::<char>::empty(),
{
    String::new()
}

/// A fresh temporary file name: always empty here.
pub fn create_temp_file() -> (r: String)
    ensures
        r@ == Seq::<char>::empty(),
{
    String::new()
}

/// Data access.
pub struct Repository;

/// A data model.
pub struct Model;

/// A database connection.
pub struct Connection;

/// A name and a value.
pub struct TestStruct {
    pub name: String,
    pub value: i32,
}

/// Something that can act.
pub trait TestTrait {
    /// Acts, and says whether that went well.
    fn do_something(&self) -> bool;
}

impl TestTrait for TestStruct {
    fn do_something(&self) -> bool {
        true
    }
}

/// Largest size of a sample collection.
pub const MAX_SIZE: usize = 100;

/// The three primary colours of light.
#[derive(Clone, Copy, Debug, PartialEq, Eq, Structural)]
pub enum Color {
    Red,
    Green,
    Blue,
}

/// The character of decimal digit `d`.
pub open spec fn digit_char(d: int) -> char {
    if d == 0 {
        '0'
    } else if d == 1 {
        '1'
    } else if d == 2 {
        '2'
    } else if d == 3 {
        '3'
    } else if d == 4 {
        '4'
    } else if d == 5 {
        '5'
    } else if d == 6 {
        '6'
    } else if d == 7 {
        '7'
    } else if d == 8 {
        '8'
    } else {
        '9'
    }
}

/// The decimal digits of `n`, most significant first.
pub open spec fn decimal(n: nat) -> Seq<char>
    decreases n,
{
    if n < 10 {
        seq![digit_char(n as int)]
    } else {
        decimal(n / 10) + seq![digit_char((n % 10) as int)]
    }
}

fn digit_str(d: u64) -> (r: &'static str)
    requires
        d < 10,
    ensures
        r@ == seq![digit_char(d as int)],
{
    proof {
        reveal_strlit("0");
        reveal_strlit("1");
        reveal_strlit("2");
        reveal_strlit("3");
        reveal_strlit("4");
        reveal_strlit("5");
        reveal_strlit("6");
        reveal_strlit("7");
        reveal_strlit("8");
        reveal_strlit("9");
    }
    match d {
        0 => "0",
        1 => "1",
        2 => "2",
        3 => "3",
        4 => "4",
        5 => "5",
        6 => "6",
        7 => "7",
        8 => "8",
        9 => "9",
        _ => "9",
    }
}

/// Appends the decimal digits of `n` to `out`.
fn write_decimal(n: u64, out: &mut String)
    ensures
        final(out)@ == old(out)@ + decimal(n as nat),
    decreases n,
{
    if n >= 10 {
        write_decimal(n / 10, out);
    }
    out.append(digit_str(n % 10));
    proof {
        assert(final(out)@ =~= old(out)@ + decimal(n as nat));
    }
}

/// `param1: param2` for a positive `param2`, else the empty string.
pub fn test_function(param1: &str, param2: i32) -> (r: String)
    ensures
        r@ == if param2 > 0 {
            param1@ + ": "@ + decimal(param2 as nat)
        } else {
            Seq::<char>::empty()
        },
{
    if param2 > 0 {
        let mut s = String::from_str(param1);
        s.append(": ");
        write_decimal(param2 as u64, &mut s);
        s
    } else {
        String::new()
    }
}

/// Number of commas in `s`, plus one: the parts a split on `,` gives.
pub open spec fn part_count(s: Seq<char>) -> int
    decreases s.len(),
{
    if s.len() == 0 {
        1
    } else {
        part_count(s.drop_last()) + if s.last() == ',' {
            1int
        } else {
            0
        }
    }
}

/// Accepts a request of at least three comma-separated parts.
pub fn process_request(request: String) -> (r: Result<String, String>)
    ensures
        part_count(request@) < 3 ==> (r matches Err(e) && e@ == "Invalid request"@),
        part_count(request@) >= 3 ==> (r matches Ok(m) && m@ == "Processed: "@ + request@),
{
    let n = request.as_str().unicode_len();
    let mut parts: usize = 1;
    let mut i: usize = 0;
    while i < n && parts < 3
        invariant
            n == request@.len(),
            i <= n,
            parts == part_count(request@.subrange(0, i as int)),
            parts <= 3,
        decreases n - i,
    {
        proof {
            assert(request@.subrange(0, i + 1).drop_last() =~= request@.subrange(0, i as int));
        }
        if request.as_str().get_char(i) == ',' {
            parts = parts + 1;
        }
        i = i + 1;
    }
    proof {
        lemma_part_count_grows(request@, i as int);
        if i == n {
            assert(request@.subrange(0, n as int) =~= request@);
        }
    }
    if parts < 3 {
        return Err(String::from_str("Invalid request"));
    }
    Ok(String::from_str("Processed: ").concat(request.as_str()))
}

proof fn lemma_part_count_grows(s: Seq<char>, i: int)
    requires
        0 <= i <= s.len(),
    ensures
        part_count(s.subrange(0, i)) <= part_count(s),
    decreases s.len() - i,
{
    if i < s.len() {
        lemma_part_count_grows(s, i + 1);
        assert(s.subrange(0, i + 1).drop_last() =~= s.subrange(0, i));
    } else {
        assert(s.subrange(0, i) =~= s);
    }
}

} // verus!
