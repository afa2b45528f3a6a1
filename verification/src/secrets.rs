//! Decoding the data of the secret commands.
use vstd::prelude::*;
use vstd::utf8::{decode_utf8, valid_utf8};
use crate::obfuscation::{deobfuscate, deobfuscated};

verus! {

/// The error of std for bytes that are no UTF-8 text.
#[verifier::external_type_specification]
#[verifier::external_body]
pub struct ExFromUtf8Error(std::string::FromUtf8Error);

/// Calls `String::from_utf8` of std, which gives the text that the bytes encode
/// exactly when they are valid UTF-8.
#[verifier::external_body]
fn text_from_utf8(bytes: Vec<u8>) -> (text: Result<String, std::string::FromUtf8Error>)
    ensures
        text is Ok == valid_utf8(bytes@),
        text is Ok ==> text->Ok_0@ == decode_utf8(bytes@),
{
    String::from_utf8(bytes)
}

/// The step between two bytes that are read: the first byte of the data less the second.
pub open spec fn stride(secrets: Seq<u8>) -> int {
    secrets[0] - secrets[1]
}

/// The byte at `index` in the clear: the bytes at even places are stored inverted.
pub open spec fn clear_byte(secrets: Seq<u8>, index: int) -> u8 {
    if index % 2 == 0 {
        (255 - secrets[index]) as u8
    } else {
        secrets[index]
    }
}

/// The bytes read from `start` on, one every `stride(secrets)` places, in the
/// clear: at most `limit` of them, and none behind the end of the data.
pub open spec fn picked(secrets: Seq<u8>, start: int, limit: nat) -> Seq<u8>
    decreases limit,
{
    if limit == 0 || start >= secrets.len() {
        Seq::empty()
    } else {
        seq![clear_byte(secrets, start)] + picked(secrets, start + stride(secrets), (limit - 1) as nat)
    }
}

/// The bytes that [`decode`] gives: those picked, from the last to the first when `reversed`.
pub open spec fn decoded(secrets: Seq<u8>, start: int, limit: nat, reversed: bool) -> Seq<u8> {
    if reversed {
        picked(secrets, start, limit).reverse()
    } else {
        picked(secrets, start, limit)
    }
}

/// The number that the bytes write in base 256, the first byte being the highest.
pub open spec fn big_endian(bytes: Seq<u8>) -> nat
    decreases bytes.len(),
{
    if bytes.len() == 0 {
        0
    } else {
        big_endian(bytes.drop_last()) * 256 + bytes.last() as nat
    }
}

/// No more bytes are decoded than were asked for.
pub proof fn lemma_decoded_len(secrets: Seq<u8>, start: int, limit: nat, reversed: bool)
    ensures
        decoded(secrets, start, limit, reversed).len() <= limit,
        decoded(secrets, start, limit, reversed).len() == picked(secrets, start, limit).len(),
    decreases limit,
{
    if limit > 0 && start < secrets.len() {
        lemma_decoded_len(secrets, start + stride(secrets), (limit - 1) as nat, false);
    }
}

/// Decodes obfuscated data: reads `l` bytes of `secrets` from the place `a` on,
/// one every few places, and reverses them if `r`.
pub fn decode(secrets: &[u8], a: usize, l: usize, r: bool) -> (bytes: Vec<u8>)
    requires
        secrets@.len() >= 2,
        secrets@[0] > secrets@[1],
    ensures
        bytes@ == decoded(secrets@, a as int, l as nat, r),
        bytes@.len() <= l,
{
    let step: usize = (secrets[0] - secrets[1]) as usize;
    let length: usize = secrets.len();
    let mut read: Vec<u8> = Vec::new();
    let mut index: usize = a;
    assert(read@ + picked(secrets@, index as int, l as nat) =~= picked(secrets@, a as int, l as nat));
    while read.len() < l && index < length
        invariant
            length == secrets@.len(),
            step == stride(secrets@),
            step > 0,
            read@.len() <= l,
            read@ + picked(secrets@, index as int, (l - read@.len()) as nat) == picked(
                secrets@,
                a as int,
                l as nat,
            ),
        decreases l - read@.len(),
    {
        let ghost rest = picked(secrets@, index + step, (l - read@.len() - 1) as nat);
        let stored: u8 = secrets[index];
        let clear: u8 = if index % 2 == 0 {
            255 - stored
        } else {
            stored
        };
        assert((read@.push(clear)) + rest =~= read@ + (seq![clear] + rest));
        read.push(clear);
        if length - index <= step {
            // The next place is behind the end of the data: nothing is read from there.
            index = length;
        } else {
            index += step;
        }
        assert(picked(secrets@, index as int, (l - read@.len()) as nat) == rest);
    }
    assert(read@ =~= picked(secrets@, a as int, l as nat));
    if r {
        let count: usize = read.len();
        let mut turned: Vec<u8> = Vec::new();
        let mut k: usize = 0;
        while k < count
            invariant
                count == read@.len(),
                k <= count,
                turned@.len() == k,
                forall|j: int| 0 <= j < k ==> turned@[j] == read@[count - 1 - j],
            decreases count - k,
        {
            turned.push(read[count - 1 - k]);
            k += 1;
        }
        assert(turned@ =~= read@.reverse());
        turned
    } else {
        read
    }
}

/// Decodes an obfuscated string: the text that the decoded bytes encode, or the
/// error of std when they are no UTF-8 text.
pub fn decode_string(secrets: &[u8], a: usize, l: usize, r: bool) -> (text: Result<
    String,
    std::string::FromUtf8Error,
>)
    requires
        secrets@.len() >= 2,
        secrets@[0] > secrets@[1],
    ensures
        text is Ok == valid_utf8(decoded(secrets@, a as int, l as nat, r)),
        text is Ok ==> text->Ok_0@ == decode_utf8(decoded(secrets@, a as int, l as nat, r)),
{
    text_from_utf8(decode(secrets, a, l, r))
}

/// Decodes an obfuscated number: the decoded bytes, four at most, written in
/// base 256 with the first byte as the highest.
pub fn decode_number(secrets: &[u8], a: usize, l: usize, r: bool) -> (number: u32)
    requires
        secrets@.len() >= 2,
        secrets@[0] > secrets@[1],
        decoded(secrets@, a as int, l as nat, r).len() <= 4,
    ensures
        number == big_endian(decoded(secrets@, a as int, l as nat, r)),
{
    let chars: Vec<u8> = decode(secrets, a, l, r);
    let mut number: u64 = 0;
    let mut k: usize = 0;
    assert(chars@.subrange(0, 0) =~= Seq::<u8>::empty());
    while k < chars.len()
        invariant
            chars@.len() <= 4,
            k <= chars@.len(),
            number == big_endian(chars@.subrange(0, k as int)),
            k == 0 ==> number == 0,
            k == 1 ==> number < 0x100,
            k == 2 ==> number < 0x1_0000,
            k == 3 ==> number < 0x100_0000,
            k == 4 ==> number < 0x1_0000_0000,
        decreases chars@.len() - k,
    {
        assert(chars@.subrange(0, k + 1).drop_last() =~= chars@.subrange(0, k as int));
        number = number * 256 + chars[k] as u64;
        k += 1;
    }
    assert(chars@.subrange(0, k as int) =~= chars@);
    number as u32
}

/// The product of the decimal digits of `n`.
pub open spec fn digit_product(n: nat) -> nat
    decreases n,
{
    if n < 10 {
        n
    } else {
        digit_product(n / 10) * (n % 10)
    }
}

/// The number of decimal digits of `n`.
pub open spec fn digit_count(n: nat) -> nat
    decreases n,
{
    if n < 10 {
        1
    } else {
        1 + digit_count(n / 10)
    }
}

/// What the day `day` of the month `month` gives to compare with the number of the
/// secret of the start: the product of their difference, at least zero, with their
/// sum, less that sum, at least zero.
pub open spec fn date_number(day: u32, month: u32) -> int {
    let difference: int = if day >= month {
        day - month
    } else {
        0
    };
    let product: int = difference * (day + month);
    if product >= day + month {
        product - (day + month)
    } else {
        0
    }
}

/// Returns the product of the decimal digits of `n`.
pub fn product_of_digits(n: u32) -> (product: u32)
    ensures
        product == digit_product(n as nat),
        product <= n,
{
    let mut rest: u32 = n;
    let mut product: u32 = 1;
    while rest >= 10
        invariant
            digit_product(n as nat) == digit_product(rest as nat) * product,
            product * rest <= n,
        decreases rest,
    {
        let digit: u32 = rest % 10;
        let tens: u32 = rest / 10;
        proof {
            let before: int = digit_product(tens as nat) as int;
            assert(before * digit * product == before * (product * digit)) by (nonlinear_arith);
            assert((product * digit) * tens <= product * rest) by (nonlinear_arith)
                requires
                    rest == 10 * tens + digit,
                    0 <= digit <= 9,
                    0 <= product,
                    1 <= tens,
            ;
            assert(product * digit <= (product * digit) * tens) by (nonlinear_arith)
                requires
                    1 <= tens,
                    0 <= product,
                    0 <= digit,
            ;
        }
        product = product * digit;
        rest = tens;
    }
    proof {
        assert(product * rest == rest * product) by (nonlinear_arith);
    }
    product * rest
}

/// Returns the number of decimal digits of `n`.
pub fn number_of_digits(n: u32) -> (count: u32)
    ensures
        count == digit_count(n as nat),
        1 <= count <= 10,
{
    let mut rest: u32 = n;
    let mut count: u32 = 1;
    let ghost mut bound: int = 1;
    while rest >= 10
        invariant
            digit_count(n as nat) == digit_count(rest as nat) + count - 1,
            1 <= count <= 10,
            rest * bound <= n,
            count == 1 ==> bound == 1,
            count == 2 ==> bound == 10,
            count == 3 ==> bound == 100,
            count == 4 ==> bound == 1_000,
            count == 5 ==> bound == 10_000,
            count == 6 ==> bound == 100_000,
            count == 7 ==> bound == 1_000_000,
            count == 8 ==> bound == 10_000_000,
            count == 9 ==> bound == 100_000_000,
            count == 10 ==> bound == 1_000_000_000,
        decreases rest,
    {
        proof {
            assert((rest / 10) * (bound * 10) <= rest * bound) by (nonlinear_arith)
                requires
                    0 <= rest,
                    0 <= bound,
            ;
            assert(count < 10) by (nonlinear_arith)
                requires
                    count == 10 ==> bound == 1_000_000_000,
                    count <= 10,
                    rest >= 10,
                    rest * bound <= n,
                    n <= 0xffff_ffff,
            ;
            bound = bound * 10;
        }
        rest = rest / 10;
        count = count + 1;
    }
    count
}

/// Performs some operation on a deobfuscated number: the product of its decimal
/// digits, less their number.
pub fn d(n: u32) -> (number: u32)
    requires
        digit_product(n as nat) >= digit_count(n as nat),
    ensures
        number == digit_product(n as nat) - digit_count(n as nat),
{
    product_of_digits(n) - number_of_digits(n)
}

/// Tells whether the secret of the start is due on the day `day` of the month
/// `month`: the date gives the number `number`.
pub fn date_matches(number: u32, day: u32, month: u32) -> (due: bool)
    requires
        1 <= day <= 31,
        1 <= month <= 12,
    ensures
        due == (date_number(day, month) == number),
{
    let sum: u32 = day + month;
    let difference: u32 = if day >= month {
        day - month
    } else {
        0
    };
    assert(difference * sum <= 30 * 43) by (nonlinear_arith)
        requires
            0 <= difference <= 30,
            0 <= sum <= 43,
    ;
    let product: u32 = difference * sum;
    let left: u32 = if product >= sum {
        product - sum
    } else {
        0
    };
    left == number
}

/// The obfuscated text from which the password of the first secret is drawn.
pub open spec fn password_source() -> Seq<u8> {
    seq![
        116u8, 98u8, 108u8, 107u8, 113u8, 109u8, 118u8, 97u8, 119u8, 98u8, 105u8, 99u8, 102u8, 105u8, 122u8, 114u8, 97u8, 121u8, 115u8, 98u8, 119u8, 102u8, 116u8, 110u8, 116u8, 98u8, 112u8, 121u8, 97u8, 121u8, 112u8, 110u8, 110u8, 106u8, 104u8, 120u8, 116u8, 102u8, 108u8, 111u8,
    ]
}

/// Every fifth byte of a text, from the first one on.
pub open spec fn every_fifth(text: Seq<u8>) -> Seq<u8> {
    Seq::new(((text.len() + 4) / 5) as nat, |k: int| text[5 * k])
}

/// The two decimal digits of a number below one hundred, as characters.
pub open spec fn two_digits(n: u32) -> Seq<u8> {
    seq![(48 + n / 10) as u8, (48 + n % 10) as u8]
}

/// The password of the first secret on the day `day` of the month `month`: every
/// fifth character of the source in the clear, then the day and the month.
pub open spec fn password_of(day: u32, month: u32) -> Seq<u8> {
    every_fifth(deobfuscated(password_source())) + two_digits(day) + two_digits(month)
}

/// `text` ends with `tail`.
pub open spec fn ends_with(text: Seq<u8>, tail: Seq<u8>) -> bool {
    tail.len() <= text.len() && text.subrange(text.len() - tail.len(), text.len() as int) == tail
}

/// Returns the password of the first secret on the day `day` of the month `month`.
pub fn password(day: u32, month: u32) -> (pwd: Vec<u8>)
    requires
        1 <= day <= 31,
        1 <= month <= 12,
    ensures
        pwd@ == password_of(day, month),
{
    let chars: [u8; 40] = [
        116, 98, 108, 107, 113, 109, 118, 97, 119, 98, 105, 99, 102, 105, 122, 114, 97, 121, 115, 98, 119, 102, 116, 110, 116, 98, 112, 121, 97, 121, 112, 110, 110, 106, 104, 120, 116, 102, 108, 111,
    ];
    assert(chars@ =~= password_source());
    let clear: Vec<u8> = deobfuscate(chars.as_slice());
    let step: usize = ((chars[2] - chars[1]) / 2) as usize;
    let mut pwd: Vec<u8> = Vec::new();
    let mut index: usize = 0;
    while index < clear.len()
        invariant
            clear@.len() == 40,
            step == 5,
            index <= 40,
            index == 5 * pwd@.len(),
            forall|k: int| 0 <= k < pwd@.len() ==> pwd@[k] == clear@[5 * k],
        decreases 40 - index,
    {
        pwd.push(clear[index]);
        index += step;
    }
    assert(pwd@ =~= every_fifth(clear@));
    let ghost drawn = pwd@;
    pwd.push(48 + (day / 10) as u8);
    pwd.push(48 + (day % 10) as u8);
    pwd.push(48 + (month / 10) as u8);
    pwd.push(48 + (month % 10) as u8);
    assert(pwd@ =~= drawn + two_digits(day) + two_digits(month));
    pwd
}

/// Checks if the secret of the keyboard can be triggered: the keys pressed, of
/// which `stack` is the record, end with the password of the day `day` of the
/// month `month`.
pub fn check_secrets(stack: &[u8], day: u32, month: u32) -> (typed: bool)
    requires
        1 <= day <= 31,
        1 <= month <= 12,
    ensures
        typed == ends_with(stack@, password_of(day, month)),
{
    let pwd: Vec<u8> = password(day, month);
    if pwd.len() > stack.len() {
        return false;
    }
    let start: usize = stack.len() - pwd.len();
    let mut k: usize = 0;
    while k < pwd.len()
        invariant
            pwd@ == password_of(day, month),
            pwd@.len() <= stack@.len(),
            stack@.len() <= usize::MAX,
            start == stack@.len() - pwd@.len(),
            k <= pwd@.len(),
            forall|j: int| 0 <= j < k ==> stack@[start + j] == pwd@[j],
        decreases pwd@.len() - k,
    {
        if stack[start + k] != pwd[k] {
            assert(stack@.subrange(start as int, stack@.len() as int)[k as int] != pwd@[k as int]);
            return false;
        }
        k += 1;
    }
    assert(stack@.subrange(start as int, stack@.len() as int) =~= pwd@);
    true
}

/// The number that the data of the secrets holds for the secret of the start.
pub open spec fn start_number(secrets: Seq<u8>) -> nat {
    big_endian(decoded(secrets, 20, 3, false))
}

/// Checks if the secret of the start can be triggered on the day `day` of the
/// month `month`: the date gives the number that the data of the secrets holds,
/// once its digits are multiplied and their number taken off.
pub fn check_secrets_once(secrets: &[u8], day: u32, month: u32) -> (due: bool)
    requires
        secrets@.len() >= 2,
        secrets@[0] > secrets@[1],
        digit_product(start_number(secrets@)) >= digit_count(start_number(secrets@)),
        1 <= day <= 31,
        1 <= month <= 12,
    ensures
        due == (date_number(day, month) == digit_product(start_number(secrets@)) - digit_count(
            start_number(secrets@),
        )),
{
    proof {
        lemma_decoded_len(secrets@, 20, 3, false);
    }
    let number: u32 = d(decode_number(secrets, 20, 3, false));
    date_matches(number, day, month)
}

/// Tells whether the data of the secrets can be given to [`check_secrets_once`].
pub fn secrets_are_usable(secrets: &[u8]) -> (usable: bool)
    ensures
        usable == {
            &&& secrets@.len() >= 2
            &&& secrets@[0] > secrets@[1]
            &&& digit_product(start_number(secrets@)) >= digit_count(start_number(secrets@))
        },
{
    if secrets.len() < 2 || secrets[0] <= secrets[1] {
        return false;
    }
    proof {
        lemma_decoded_len(secrets@, 20, 3, false);
    }
    let number: u32 = decode_number(secrets, 20, 3, false);
    product_of_digits(number) >= number_of_digits(number)
}

} // verus!
