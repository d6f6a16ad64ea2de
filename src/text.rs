//! The readout: three short labels built from a snapshot.

use vstd::prelude::*;
use vstd::string::*;

use crate::metrics::{centi_mb_of, MetricsSnapshot};

verus! {

/// The character of the decimal digit `d` (`d < 10`).
pub open spec fn digit_char(d: nat) -> char {
    if d == 0 {
        '0'
    } else if d == 1 {
        '1'
    } else if d == 2 {
        '2'
    } else if d == 3 {
        '3'
    } else if d == 4 {
        '4'
    } else if d == 5 {
        '5'
    } else if d == 6 {
        '6'
    } else if d == 7 {
        '7'
    } else if d == 8 {
        '8'
    } else {
        '9'
    }
}

/// `n` written in decimal, without leading zeros.
pub open spec fn decimal(n: nat) -> Seq<char>
    decreases n,
{
    if n < 10 {
        seq![digit_char(n)]
    } else {
        decimal(n / 10) + seq![digit_char(n % 10)]
    }
}

/// A count of hundredths written with two decimals: `123` is `1.23`.
pub open spec fn two_decimals(centi: nat) -> Seq<char> {
    decimal(centi / 100) + seq!['.', digit_char((centi % 100) / 10), digit_char(centi % 10)]
}

/// The RAM label: `R: {percent}%`.
pub open spec fn ram_label_of(percent: nat) -> Seq<char> {
    seq!['R', ':', ' '] + decimal(percent) + seq!['%']
}

/// The network label: `N: ↓{download}MB/s ↑{upload}MB/s`, both in megabytes
/// with two decimals.
pub open spec fn network_label_of(download_centi: nat, upload_centi: nat) -> Seq<char> {
    seq!['N', ':', ' ', '↓'] + two_decimals(download_centi) + seq!['M', 'B', '/', 's', ' ', '↑']
        + two_decimals(upload_centi) + seq!['M', 'B', '/', 's']
}

fn digit_text(d: u128) -> (r: String)
    requires
        d < 10,
    ensures
        r@ == seq![digit_char(d as nat)],
{
    let s: &str = if d == 0 {
        proof { reveal_strlit("0"); }
        "0"
    } else if d == 1 {
        proof { reveal_strlit("1"); }
        "1"
    } else if d == 2 {
        proof { reveal_strlit("2"); }
        "2"
    } else if d == 3 {
        proof { reveal_strlit("3"); }
        "3"
    } else if d == 4 {
        proof { reveal_strlit("4"); }
        "4"
    } else if d == 5 {
        proof { reveal_strlit("5"); }
        "5"
    } else if d == 6 {
        proof { reveal_strlit("6"); }
        "6"
    } else if d == 7 {
        proof { reveal_strlit("7"); }
        "7"
    } else if d == 8 {
        proof { reveal_strlit("8"); }
        "8"
    } else {
        proof { reveal_strlit("9"); }
        "9"
    };
    let r = String::from_str(s);
    assert(r@ =~= seq![digit_char(d as nat)]);
    r
}

/// `n` in decimal.
pub fn decimal_text(n: u128) -> (r: String)
    ensures
        r@ == decimal(n as nat),
    decreases n,
{
    if n < 10 {
        digit_text(n)
    } else {
        let mut r = decimal_text(n / 10);
        let d = digit_text(n % 10);
        r.append(d.as_str());
        r
    }
}

/// A count of hundredths with two decimals: `5` is `0.05`, `100` is `1.00`.
pub fn two_decimals_text(centi: u128) -> (r: String)
    ensures
        r@ == two_decimals(centi as nat),
{
    let mut r = decimal_text(centi / 100);
    proof { reveal_strlit("."); }
    r.append(".");
    let tenths = digit_text((centi % 100) / 10);
    r.append(tenths.as_str());
    let hundredths = digit_text(centi % 10);
    r.append(hundredths.as_str());
    assert(r@ =~= two_decimals(centi as nat));
    r
}

/// The RAM label for a whole percentage: `R: 33%`.
pub fn ram_label(percent: u128) -> (r: String)
    ensures
        r@ == ram_label_of(percent as nat),
{
    proof {
        reveal_strlit("R: ");
        reveal_strlit("%");
    }
    let mut r = String::from_str("R: ");
    let digits = decimal_text(percent);
    r.append(digits.as_str());
    r.append("%");
    assert(r@ =~= ram_label_of(percent as nat));
    r
}

/// The network label for volumes in hundredths of a megabyte:
/// `N: ↓1.00MB/s ↑0.20MB/s`.
pub fn network_label(download_centi: u128, upload_centi: u128) -> (r: String)
    ensures
        r@ == network_label_of(download_centi as nat, upload_centi as nat),
{
    proof {
        reveal_strlit("N: ↓");
        reveal_strlit("MB/s ↑");
        reveal_strlit("MB/s");
    }
    let mut r = String::from_str("N: ↓");
    let down = two_decimals_text(download_centi);
    r.append(down.as_str());
    r.append("MB/s ↑");
    let up = two_decimals_text(upload_centi);
    r.append(up.as_str());
    r.append("MB/s");
    assert(r@ =~= network_label_of(download_centi as nat, upload_centi as nat));
    r
}

impl MetricsSnapshot {
    /// The RAM label of this snapshot.
    pub fn ram_text(&self) -> (r: String)
        ensures
            r@ == ram_label_of(self.ram_usage as nat),
    {
        ram_label(self.ram_usage)
    }

    /// The network label of this snapshot, both volumes rounded to the
    /// nearest hundredth of a megabyte, ties to even.
    pub fn network_text(&self) -> (r: String)
        ensures
            r@ == network_label_of(
                centi_mb_of(self.download_bytes as nat),
                centi_mb_of(self.upload_bytes as nat),
            ),
    {
        network_label(self.download_centi_mb(), self.upload_centi_mb())
    }
}

} // verus!
