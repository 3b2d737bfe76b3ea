//! Whole-degree trigonometry in fixed point.
//!
//! Directions are whole degrees, so only the cosines of whole degrees are
//! ever needed. They are held as integers in units of `10^-18`, each the
//! exact cosine rounded to the nearest unit, so that a tabulated value is
//! within `5 · 10^-19` of the true one. On a magnitude below `2^32`
//! hundredths that puts a projection within `3 · 10^-9` hundredths of the
//! exact product, and every computation of the crate stays exact and
//! checkable over these values.

use vstd::prelude::*;

verus! {

/// `cos(k°)` for `0 <= k <= 90`, in units of `10^-18`, rounded to the
/// nearest unit.
pub open spec fn cos_table(k: u32) -> int {
    match k {
        0 => 1000000000000000000,
        1 => 999847695156391239,
        2 => 999390827019095730,
        3 => 998629534754573874,
        4 => 997564050259824248,
        5 => 996194698091745532,
        6 => 994521895368273337,
        7 => 992546151641322035,
        8 => 990268068741570315,
        9 => 987688340595137726,
        10 => 984807753012208059,
        11 => 981627183447663953,
        12 => 978147600733805638,
        13 => 974370064785235229,
        14 => 970295726275996472,
        15 => 965925826289068287,
        16 => 961261695938318862,
        17 => 956304755963035481,
        18 => 951056516295153572,
        19 => 945518575599316810,
        20 => 939692620785908384,
        21 => 933580426497201749,
        22 => 927183854566787401,
        23 => 920504853452440327,
        24 => 913545457642600896,
        25 => 906307787036649963,
        26 => 898794046299166993,
        27 => 891006524188367862,
        28 => 882947592858926942,
        29 => 874619707139395800,
        30 => 866025403784438647,
        31 => 857167300702112287,
        32 => 848048096156425970,
        33 => 838670567945424030,
        34 => 829037572555041692,
        35 => 819152044288991790,
        36 => 809016994374947424,
        37 => 798635510047292846,
        38 => 788010753606721957,
        39 => 777145961456970880,
        40 => 766044443118978035,
        41 => 754709580222771998,
        42 => 743144825477394235,
        43 => 731353701619170483,
        44 => 719339800338651139,
        45 => 707106781186547524,
        46 => 694658370458997287,
        47 => 681998360062498500,
        48 => 669130606358858214,
        49 => 656059028990507285,
        50 => 642787609686539326,
        51 => 629320391049837453,
        52 => 615661475325658280,
        53 => 601815023152048280,
        54 => 587785252292473129,
        55 => 573576436351046096,
        56 => 559192903470746830,
        57 => 544639035015027082,
        58 => 529919264233204954,
        59 => 515038074910054210,
        60 => 500000000000000000,
        61 => 484809620246337029,
        62 => 469471562785890776,
        63 => 453990499739546792,
        64 => 438371146789077417,
        65 => 422618261740699436,
        66 => 406736643075800208,
        67 => 390731128489273755,
        68 => 374606593415912035,
        69 => 358367949545300273,
        70 => 342020143325668733,
        71 => 325568154457156669,
        72 => 309016994374947424,
        73 => 292371704722736728,
        74 => 275637355816999186,
        75 => 258819045102520762,
        76 => 241921895599667723,
        77 => 224951054343864998,
        78 => 207911690817759337,
        79 => 190808995376544812,
        80 => 173648177666930349,
        81 => 156434465040230869,
        82 => 139173100960065444,
        83 => 121869343405147481,
        84 => 104528463267653471,
        85 => 87155742747658174,
        86 => 69756473744125301,
        87 => 52335956242943833,
        88 => 34899496702500972,
        89 => 17452406437283513,
        _ => 0,
    }
}

/// `cos(a°)` in units of `10^-18` for any whole number of degrees, read
/// from the first quadrant by the symmetries of the cosine.
pub open spec fn cos_deg(a: int) -> int {
    let m = a % 360;
    if m <= 90 {
        cos_table(m as u32)
    } else if m <= 180 {
        -cos_table((180 - m) as u32)
    } else if m <= 270 {
        -cos_table((m - 180) as u32)
    } else {
        cos_table((360 - m) as u32)
    }
}

/// `sin(a°)` in units of `10^-18`.
pub open spec fn sin_deg(a: int) -> int {
    cos_deg(90 - a)
}

/// Looks up `cos(k°)` for a first-quadrant angle.
fn cos_quadrant(k: u32) -> (r: u64)
    requires
        k <= 90,
    ensures
        r == cos_table(k),
{
    match k {
        0 => 1000000000000000000,
        1 => 999847695156391239,
        2 => 999390827019095730,
        3 => 998629534754573874,
        4 => 997564050259824248,
        5 => 996194698091745532,
        6 => 994521895368273337,
        7 => 992546151641322035,
        8 => 990268068741570315,
        9 => 987688340595137726,
        10 => 984807753012208059,
        11 => 981627183447663953,
        12 => 978147600733805638,
        13 => 974370064785235229,
        14 => 970295726275996472,
        15 => 965925826289068287,
        16 => 961261695938318862,
        17 => 956304755963035481,
        18 => 951056516295153572,
        19 => 945518575599316810,
        20 => 939692620785908384,
        21 => 933580426497201749,
        22 => 927183854566787401,
        23 => 920504853452440327,
        24 => 913545457642600896,
        25 => 906307787036649963,
        26 => 898794046299166993,
        27 => 891006524188367862,
        28 => 882947592858926942,
        29 => 874619707139395800,
        30 => 866025403784438647,
        31 => 857167300702112287,
        32 => 848048096156425970,
        33 => 838670567945424030,
        34 => 829037572555041692,
        35 => 819152044288991790,
        36 => 809016994374947424,
        37 => 798635510047292846,
        38 => 788010753606721957,
        39 => 777145961456970880,
        40 => 766044443118978035,
        41 => 754709580222771998,
        42 => 743144825477394235,
        43 => 731353701619170483,
        44 => 719339800338651139,
        45 => 707106781186547524,
        46 => 694658370458997287,
        47 => 681998360062498500,
        48 => 669130606358858214,
        49 => 656059028990507285,
        50 => 642787609686539326,
        51 => 629320391049837453,
        52 => 615661475325658280,
        53 => 601815023152048280,
        54 => 587785252292473129,
        55 => 573576436351046096,
        56 => 559192903470746830,
        57 => 544639035015027082,
        58 => 529919264233204954,
        59 => 515038074910054210,
        60 => 500000000000000000,
        61 => 484809620246337029,
        62 => 469471562785890776,
        63 => 453990499739546792,
        64 => 438371146789077417,
        65 => 422618261740699436,
        66 => 406736643075800208,
        67 => 390731128489273755,
        68 => 374606593415912035,
        69 => 358367949545300273,
        70 => 342020143325668733,
        71 => 325568154457156669,
        72 => 309016994374947424,
        73 => 292371704722736728,
        74 => 275637355816999186,
        75 => 258819045102520762,
        76 => 241921895599667723,
        77 => 224951054343864998,
        78 => 207911690817759337,
        79 => 190808995376544812,
        80 => 173648177666930349,
        81 => 156434465040230869,
        82 => 139173100960065444,
        83 => 121869343405147481,
        84 => 104528463267653471,
        85 => 87155742747658174,
        86 => 69756473744125301,
        87 => 52335956242943833,
        88 => 34899496702500972,
        89 => 17452406437283513,
        _ => 0,
    }
}

/// `cos(a°)` in units of `10^-18`.
pub fn cos_of(a: u32) -> (r: i64)
    ensures
        r == cos_deg(a as int),
        -1000000000000000000 <= r <= 1000000000000000000,
{
    let m = a % 360;
    if m <= 90 {
        cos_quadrant(m) as i64
    } else if m <= 180 {
        -(cos_quadrant(180 - m) as i64)
    } else if m <= 270 {
        -(cos_quadrant(m - 180) as i64)
    } else {
        cos_quadrant(360 - m) as i64
    }
}

} // verus!
