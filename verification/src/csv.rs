use vstd::prelude::*;
use vstd::string::{StrSliceExecFns, StringExecFns};

verus! {

/// The decimal digit character for `d` in 0 through 9.
pub open spec fn digit_char(d: int) -> char {
    if d == 0 {
        '0'
    } else if d == 1 {
        '1'
    } else if d == 2 {
        '2'
    } else if d == 3 {
        '3'
    } else if d == 4 {
        '4'
    } else if d == 5 {
        '5'
    } else if d == 6 {
        '6'
    } else if d == 7 {
        '7'
    } else if d == 8 {
        '8'
    } else {
        '9'
    }
}

/// The decimal digits of `n`, most significant first, without leading
/// zeros (`0` alone for zero).
pub open spec fn dec_digits(n: nat) -> Seq<char>
    decreases n,
{
    if n < 10 {
        seq![digit_char(n as int)]
    } else {
        dec_digits(n / 10) + seq![digit_char((n % 10) as int)]
    }
}

/// The decimal spelling of `v`: its digits, with a leading `-` when
/// negative.
pub open spec fn int_text(v: int) -> Seq<char> {
    if v < 0 {
        seq!['-'] + dec_digits((-v) as nat)
    } else {
        dec_digits(v as nat)
    }
}

/// The digit bytes of `ds`, read back to front, as digit characters.
pub open spec fn rev_digit_chars(ds: Seq<u8>) -> Seq<char> {
    Seq::new(ds.len(), |i: int| digit_char(ds[ds.len() - 1 - i] as int))
}

fn push_digit(s: &mut String, d: u8)
    requires
        d < 10,
    ensures
        final(s)@ == old(s)@ + seq![digit_char(d as int)],
{
    proof {
        reveal_strlit("0");
        reveal_strlit("1");
        reveal_strlit("2");
        reveal_strlit("3");
        reveal_strlit("4");
        reveal_strlit("5");
        reveal_strlit("6");
        reveal_strlit("7");
        reveal_strlit("8");
        reveal_strlit("9");
    }
    match d {
        0 => s.append("0"),
        1 => s.append("1"),
        2 => s.append("2"),
        3 => s.append("3"),
        4 => s.append("4"),
        5 => s.append("5"),
        6 => s.append("6"),
        7 => s.append("7"),
        8 => s.append("8"),
        _ => s.append("9"),
    }
}

/// Spells `v` in decimal.
pub fn decimal_string(v: i64) -> (s: String)
    ensures
        s@ == int_text(v as int),
{
    let mut digits: Vec<u8> = Vec::new();
    let mut mag: u64 = if v < 0 {
        (-(v as i128)) as u64
    } else {
        v as u64
    };
    let ghost m0 = mag as nat;
    if mag == 0 {
        digits.push(0);
    }
    while mag > 0
        invariant
            forall|t: int| 0 <= t < digits@.len() ==> (#[trigger] digits@[t]) < 10,
            mag == 0 ==> digits@.len() >= 1,
            dec_digits(m0) == (if mag > 0 {
                dec_digits(mag as nat)
            } else {
                Seq::<char>::empty()
            }) + rev_digit_chars(digits@),
        decreases mag,
    {
        let d: u8 = (mag % 10) as u8;
        let ghost digits_before = digits@;
        let ghost mag_before = mag as nat;
        digits.push(d);
        mag = mag / 10;
        proof {
            assert(seq![digit_char(d as int)] + rev_digit_chars(digits_before) =~= rev_digit_chars(
                digits@,
            ));
            if mag > 0 {
                assert(dec_digits(mag_before) == dec_digits(mag_before / 10) + seq![
                    digit_char((mag_before % 10) as int),
                ]);
                assert(dec_digits(mag as nat) + (seq![digit_char(d as int)] + rev_digit_chars(
                    digits_before,
                )) =~= (dec_digits(mag as nat) + seq![digit_char(d as int)]) + rev_digit_chars(
                    digits_before,
                ));
            } else {
                assert(dec_digits(mag_before) == seq![digit_char(d as int)]);
                assert(Seq::<char>::empty() + rev_digit_chars(digits@) =~= rev_digit_chars(
                    digits@,
                ));
                assert(dec_digits(mag_before) + rev_digit_chars(digits_before) =~= seq![
                    digit_char(d as int),
                ] + rev_digit_chars(digits_before));
            }
        }
    }
    proof {
        assert(Seq::<char>::empty() + rev_digit_chars(digits@) =~= rev_digit_chars(digits@));
    }
    let mut s: String = String::new();
    if v < 0 {
        proof {
            reveal_strlit("-");
        }
        s.append("-");
    }
    let ghost sign: Seq<char> = if v < 0 {
        seq!['-']
    } else {
        Seq::<char>::empty()
    };
    proof {
        assert(s@ =~= sign);
        assert(rev_digit_chars(digits@).take(0) =~= Seq::<char>::empty());
        assert(s@ =~= sign + rev_digit_chars(digits@).take(0));
    }
    let mut k: usize = digits.len();
    while k > 0
        invariant
            k <= digits@.len(),
            forall|t: int| 0 <= t < digits@.len() ==> (#[trigger] digits@[t]) < 10,
            dec_digits(m0) == rev_digit_chars(digits@),
            s@ == sign + rev_digit_chars(digits@).take(digits@.len() - k),
        decreases k,
    {
        k = k - 1;
        push_digit(&mut s, digits[k]);
        proof {
            let rev = rev_digit_chars(digits@);
            let done = digits@.len() - k;
            assert(rev[done - 1] == digit_char(digits@[k as int] as int));
            assert(rev.take(done) =~= rev.take(done - 1) + seq![rev[done - 1]]);
            assert(s@ =~= sign + rev.take(done));
        }
    }
    proof {
        assert(rev_digit_chars(digits@).take(digits@.len() as int) =~= rev_digit_chars(digits@));
        assert(m0 == if v < 0 {
            -(v as int)
        } else {
            v as int
        });
    }
    s
}

/// One row of the weights download: the identifier, the already
/// formatted timestamp, and the already formatted kilogram value.
pub struct WeightCsvRow {
    pub weight_id: i64,
    pub measured_at: String,
    pub kilograms: String,
}

/// The text a row adds: a line break, then the three fields separated
/// by commas.
pub open spec fn csv_row_text(r: WeightCsvRow) -> Seq<char> {
    seq!['\n'] + int_text(r.weight_id as int) + seq![','] + r.measured_at@ + seq![',']
        + r.kilograms@
}

/// The text of all rows, in order.
pub open spec fn csv_rows_text(rows: Seq<WeightCsvRow>) -> Seq<char>
    decreases rows.len(),
{
    if rows.len() == 0 {
        Seq::<char>::empty()
    } else {
        csv_rows_text(rows.drop_last()) + csv_row_text(rows.last())
    }
}

/// Renders the weights download: the header line, then one line per
/// row, fields separated by commas.
pub fn generate_weights_csv(rows: &Vec<WeightCsvRow>) -> (s: String)
    ensures
        s@ == "weight_id,measured_at,kilograms"@ + csv_rows_text(rows@),
{
    let mut s: String = String::from_str("weight_id,measured_at,kilograms");
    proof {
        assert(rows@.take(0) =~= Seq::<WeightCsvRow>::empty());
        assert(s@ =~= "weight_id,measured_at,kilograms"@ + csv_rows_text(rows@.take(0)));
    }
    let mut i: usize = 0;
    while i < rows.len()
        invariant
            i <= rows@.len(),
            s@ == "weight_id,measured_at,kilograms"@ + csv_rows_text(rows@.take(i as int)),
        decreases rows@.len() - i,
    {
        proof {
            reveal_strlit("\n");
            reveal_strlit(",");
        }
        s.append("\n");
        let id_text: String = decimal_string(rows[i].weight_id);
        s.append(id_text.as_str());
        s.append(",");
        s.append(rows[i].measured_at.as_str());
        s.append(",");
        s.append(rows[i].kilograms.as_str());
        proof {
            assert(rows@.take(i + 1).drop_last() =~= rows@.take(i as int));
            assert(rows@.take(i + 1).last() == rows@[i as int]);
            assert(s@ =~= "weight_id,measured_at,kilograms"@ + csv_rows_text(rows@.take(i + 1)));
        }
        i = i + 1;
    }
    proof {
        assert(rows@.take(rows@.len() as int) =~= rows@);
    }
    s
}

} // verus!
