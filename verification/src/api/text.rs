//! Rendering of integers and bytes as text, and the reverse.

use vstd::prelude::*;
use crate::api::binary::views_of;
use vstd::arithmetic::div_mod::{lemma_div_decreases, lemma_small_mod};
use vstd::string::{StringExecFns, StringSliceAdditionalSpecFns};
use vstd::utf8::encode_utf8;

verus! {

/// The character that stands for the digit `value` (below 36); letters in
/// upper case where `upper` holds, in lower case otherwise.
pub open spec fn digit_char(value: int, upper: bool) -> char {
    if value < 10 {
        (value + 48) as char
    } else if upper {
        (value + 55) as char
    } else {
        (value + 87) as char
    }
}

/// Appends the character of one hexadecimal digit.
pub fn push_digit(out: &mut String, value: u8, upper: bool)
    requires
        value < 16,
    ensures
        final(out)@ == old(out)@.push(digit_char(value as int, upper)),
{
    let digit: &str = if value < 10 {
        match value {
            0 => "0",
            1 => "1",
            2 => "2",
            3 => "3",
            4 => "4",
            5 => "5",
            6 => "6",
            7 => "7",
            8 => "8",
            _ => "9",
        }
    } else if upper {
        match value {
            10 => "A",
            11 => "B",
            12 => "C",
            13 => "D",
            14 => "E",
            _ => "F",
        }
    } else {
        match value {
            10 => "a",
            11 => "b",
            12 => "c",
            13 => "d",
            14 => "e",
            _ => "f",
        }
    };
    proof {
        reveal_strlit("0");
        reveal_strlit("1");
        reveal_strlit("2");
        reveal_strlit("3");
        reveal_strlit("4");
        reveal_strlit("5");
        reveal_strlit("6");
        reveal_strlit("7");
        reveal_strlit("8");
        reveal_strlit("9");
        reveal_strlit("A");
        reveal_strlit("B");
        reveal_strlit("C");
        reveal_strlit("D");
        reveal_strlit("E");
        reveal_strlit("F");
        reveal_strlit("a");
        reveal_strlit("b");
        reveal_strlit("c");
        reveal_strlit("d");
        reveal_strlit("e");
        reveal_strlit("f");
        assert(digit@ =~= seq![digit_char(value as int, upper)]);
    }
    out.append(digit);
    assert(out@ =~= old(out)@.push(digit_char(value as int, upper)));
}

/// Two hexadecimal digits for every byte, high nibble first.
pub open spec fn hex_text(bytes: Seq<u8>, upper: bool) -> Seq<char> {
    Seq::new(
        2 * bytes.len(),
        |i: int|
            if i % 2 == 0 {
                digit_char(bytes[i / 2] as int / 16, upper)
            } else {
                digit_char(bytes[i / 2] as int % 16, upper)
            },
    )
}

/// Renders bytes as lower-case hexadecimal text.
pub fn to_hex(bytes: &[u8]) -> (text: String)
    ensures
        text@ == hex_text(bytes@, false),
{
    let mut text = String::new();
    let mut i: usize = 0;
    while i < bytes.len()
        invariant
            i <= bytes@.len(),
            text@ == hex_text(bytes@.take(i as int), false),
        decreases bytes@.len() - i,
    {
        let byte: u8 = bytes[i];
        let ghost before = text@;
        push_digit(&mut text, byte / 16, false);
        push_digit(&mut text, byte % 16, false);
        i = i + 1;
        assert(text@ =~= hex_text(bytes@.take(i as int), false));
    }
    assert(bytes@.take(i as int) =~= bytes@);
    text
}

/// Digits of `value` in base `radix`, most significant first, without
/// padding; zero is the single digit `0`.
pub open spec fn radix_text(value: nat, radix: nat, upper: bool) -> Seq<char>
    decreases value,
{
    if radix < 2 || value < radix {
        seq![digit_char(value as int, upper)]
    } else {
        proof {
            lemma_div_decreases(value as int, radix as int);
        }
        radix_text(value / radix, radix, upper).push(digit_char((value % radix) as int, upper))
    }
}

/// `text` with zeros in front of it until it is `width` characters long.
pub open spec fn zero_padded(text: Seq<char>, width: nat) -> Seq<char> {
    if text.len() >= width {
        text
    } else {
        Seq::new((width - text.len()) as nat, |i: int| '0') + text
    }
}

/// Number of digits of `value` in base `radix`.
pub fn radix_len(value: u128, radix: u128, upper: bool) -> (count: u128)
    requires
        2 <= radix <= 16,
    ensures
        count == radix_text(value as nat, radix as nat, upper).len(),
{
    let mut rest: u128 = value;
    let mut count: u128 = 1;
    while rest >= radix
        invariant
            2 <= radix <= 16,
            1 <= count,
            count + rest <= value + 1,
            radix_text(value as nat, radix as nat, upper).len() == radix_text(
                rest as nat,
                radix as nat,
                upper,
            ).len() + count - 1,
        decreases rest,
    {
        rest = rest / radix;
        count = count + 1;
    }
    count
}

/// Appends the digits of `value` in base `radix`.
pub fn push_radix(out: &mut String, value: u128, radix: u128, upper: bool)
    requires
        2 <= radix <= 16,
    ensures
        final(out)@ == old(out)@ + radix_text(value as nat, radix as nat, upper),
    decreases value,
{
    if value >= radix {
        proof {
            lemma_div_decreases(value as int, radix as int);
        }
        push_radix(out, value / radix, radix, upper);
    }
    let ghost before = out@;
    push_digit(out, (value % radix) as u8, upper);
    proof {
        let digit = digit_char((value % radix) as int, upper);
        assert(out@ == before.push(digit));
        if value >= radix {
            let front = radix_text((value / radix) as nat, radix as nat, upper);
            assert((value as nat) / (radix as nat) == (value / radix) as nat);
            assert((value as nat) % (radix as nat) == (value % radix) as nat);
            assert(radix_text(value as nat, radix as nat, upper) == front.push(digit));
            assert(before == old(out)@ + front);
            assert(out@ =~= old(out)@ + front.push(digit));
        } else {
            lemma_small_mod(value as nat, radix as nat);
            assert(radix_text(value as nat, radix as nat, upper) == seq![digit]);
            assert(out@ =~= old(out)@ + seq![digit]);
        }
    }
}

/// Appends the digits of `value` in base `radix`, with zeros in front
/// where there are fewer than `width` of them.
pub fn push_padded(out: &mut String, value: u128, radix: u128, width: u128, upper: bool)
    requires
        2 <= radix <= 16,
    ensures
        final(out)@ == old(out)@ + zero_padded(
            radix_text(value as nat, radix as nat, upper),
            width as nat,
        ),
{
    let count: u128 = radix_len(value, radix, upper);
    let mut filled: u128 = count;
    let ghost digits = radix_text(value as nat, radix as nat, upper);
    while filled < width
        invariant
            count <= filled,
            filled <= width || filled == count,
            out@ == old(out)@ + Seq::new((filled - count) as nat, |i: int| '0'),
        decreases width - filled,
    {
        proof {
            reveal_strlit("0");
        }
        out.append("0");
        filled = filled + 1;
        assert(out@ =~= old(out)@ + Seq::new((filled - count) as nat, |i: int| '0'));
    }
    push_radix(out, value, radix, upper);
    assert(out@ =~= old(out)@ + zero_padded(digits, width as nat));
}

/// Texts one behind the other with a separator between each two.
pub open spec fn joined(texts: Seq<Seq<char>>, separator: Seq<char>) -> Seq<char>
    decreases texts.len(),
{
    if texts.len() == 0 {
        Seq::empty()
    } else if texts.len() == 1 {
        texts[0]
    } else {
        joined(texts.drop_last(), separator) + separator + texts.last()
    }
}

/// Joins texts with a separator between each two.
pub fn join(texts: &Vec<String>, separator: &str) -> (whole: String)
    ensures
        whole@ == joined(texts@.map_values(|s: String| s@), separator@),
{
    let ghost views = texts@.map_values(|s: String| s@);
    let mut whole = String::new();
    let mut i: usize = 0;
    assert(views.take(0) =~= Seq::<Seq<char>>::empty());
    while i < texts.len()
        invariant
            i <= texts@.len(),
            views == texts@.map_values(|s: String| s@),
            whole@ == joined(views.take(i as int), separator@),
        decreases texts@.len() - i,
    {
        proof {
            assert(views.take(i + 1).drop_last() =~= views.take(i as int));
            assert(views.take(i + 1).last() == texts@[i as int]@);
        }
        if i > 0 {
            whole.append(separator);
        } else {
            assert(whole@ =~= Seq::<char>::empty());
            assert(Seq::<char>::empty() + texts@[0]@ =~= texts@[0]@);
        }
        whole.append(texts[i].as_str());
        i = i + 1;
    }
    assert(views.take(i as int) =~= views);
    whole
}

/// Whether the bytes of `prefix` are the first bytes of `text`.
pub open spec fn begins_with(text: Seq<char>, prefix: Seq<char>) -> bool {
    encode_utf8(prefix).is_prefix_of(encode_utf8(text))
}

/// Tests whether a text begins with another.
pub fn starts_with(text: &str, prefix: &str) -> (begins: bool)
    ensures
        begins == begins_with(text@, prefix@),
{
    let whole: &[u8] = text.as_bytes();
    let first: &[u8] = prefix.as_bytes();
    if first.len() > whole.len() {
        return false;
    }
    let mut i: usize = 0;
    while i < first.len()
        invariant
            i <= first@.len(),
            first@.len() <= whole@.len(),
            first@ == encode_utf8(prefix@),
            whole@ == encode_utf8(text@),
            forall|j: int| 0 <= j < i ==> first@[j] == whole@[j],
        decreases first@.len() - i,
    {
        if first[i] != whole[i] {
            assert(whole@.subrange(0, first@.len() as int)[i as int] != first@[i as int]);
            return false;
        }
        i = i + 1;
    }
    assert(first@ =~= whole@.subrange(0, first@.len() as int));
    true
}

/// Whether a byte string comes before another in the order of the
/// dictionary.
pub open spec fn bytes_less(a: Seq<u8>, b: Seq<u8>) -> bool
    decreases a.len(),
{
    if b.len() == 0 {
        false
    } else if a.len() == 0 {
        true
    } else if a[0] != b[0] {
        a[0] < b[0]
    } else {
        bytes_less(a.drop_first(), b.drop_first())
    }
}

/// Whether a text comes before another in the order of the dictionary,
/// byte by byte.
pub open spec fn text_less(a: Seq<char>, b: Seq<char>) -> bool {
    bytes_less(encode_utf8(a), encode_utf8(b))
}

/// Of two byte strings that are not the same, one comes before the other.
pub proof fn lemma_bytes_order(a: Seq<u8>, b: Seq<u8>)
    ensures
        a == b || bytes_less(a, b) || bytes_less(b, a),
    decreases a.len(),
{
    if a.len() == 0 || b.len() == 0 {
        if a.len() == 0 && b.len() == 0 {
            assert(a =~= b);
        }
    } else if a[0] == b[0] {
        lemma_bytes_order(a.drop_first(), b.drop_first());
        if a.drop_first() == b.drop_first() {
            assert(a =~= seq![a[0]] + a.drop_first());
            assert(b =~= seq![b[0]] + b.drop_first());
        }
    }
}

/// Tests whether a text comes before another.
pub fn is_less(a: &str, b: &str) -> (less: bool)
    ensures
        less == text_less(a@, b@),
{
    let first: &[u8] = a.as_bytes();
    let second: &[u8] = b.as_bytes();
    let mut i: usize = 0;
    assert(first@.skip(0) =~= first@);
    assert(second@.skip(0) =~= second@);
    loop
        invariant
            i <= first@.len(),
            i <= second@.len(),
            first@ == encode_utf8(a@),
            second@ == encode_utf8(b@),
            bytes_less(first@, second@) == bytes_less(first@.skip(i as int), second@.skip(i as int)),
        decreases first@.len() - i,
    {
        if i >= second.len() {
            return false;
        }
        if i >= first.len() {
            return true;
        }
        if first[i] != second[i] {
            return first[i] < second[i];
        }
        proof {
            assert(first@.skip(i as int).drop_first() =~= first@.skip(i + 1));
            assert(second@.skip(i as int).drop_first() =~= second@.skip(i + 1));
        }
        i = i + 1;
    }
}

/// Whether each text of a sequence comes before the next.
pub open spec fn ascending(texts: Seq<Seq<char>>) -> bool {
    forall|i: int| 0 <= i < texts.len() - 1 ==> text_less(#[trigger] texts[i], texts[i + 1])
}

/// Puts a text into an ascending list at its place, unless it stands
/// there already.
pub fn insert_sorted(list: &mut Vec<String>, text: String)
    requires
        ascending(views_of(old(list)@)),
    ensures
        ascending(views_of(final(list)@)),
        forall|t: Seq<char>|
            #[trigger] views_of(final(list)@).contains(t) <==> (views_of(old(list)@).contains(t)
                || t == text@),
{
    let ghost before = views_of(list@);
    let mut place: usize = 0;
    while place < list.len() && is_less(list[place].as_str(), text.as_str())
        invariant
            place <= list@.len(),
            list@ == old(list)@,
            before == views_of(list@),
            forall|j: int| 0 <= j < place ==> text_less(#[trigger] before[j], text@),
        decreases list@.len() - place,
    {
        place = place + 1;
    }
    if place < list.len() && list[place] == text {
        assert(before[place as int] == text@);
        assert forall|t: Seq<char>| #[trigger]
            before.contains(t) <==> (before.contains(t) || t == text@) by {}
        return ;
    }
    proof {
        if place < list@.len() {
            lemma_bytes_order(encode_utf8(before[place as int]), encode_utf8(text@));
            vstd::utf8::encode_utf8_decode_utf8(before[place as int]);
            vstd::utf8::encode_utf8_decode_utf8(text@);
        }
    }
    list.insert(place, text);
    proof {
        let after = views_of(list@);
        assert(after =~= before.insert(place as int, text@));
        assert forall|i: int| 0 <= i < after.len() - 1 implies text_less(
            #[trigger] after[i],
            after[i + 1],
        ) by {
            if i + 1 < place {
                assert(after[i] == before[i] && after[i + 1] == before[i + 1]);
            } else if i + 1 == place {
                assert(after[i] == before[i]);
            } else if i == place {
                assert(after[i + 1] == before[i]);
            } else {
                assert(after[i] == before[i - 1] && after[i + 1] == before[i]);
            }
        }
        assert forall|t: Seq<char>| #[trigger]
            after.contains(t) <==> (before.contains(t) || t == text@) by {
            if after.contains(t) {
                let k = after.index_of(t);
                if k < place {
                    assert(before[k] == t);
                } else if k > place {
                    assert(before[k - 1] == t);
                }
            }
            if before.contains(t) {
                let k = before.index_of(t);
                if k < place {
                    assert(after[k] == t);
                } else {
                    assert(after[k + 1] == t);
                }
            }
            if t == text@ {
                assert(after[place as int] == t);
            }
        }
    }
}

} // verus!
