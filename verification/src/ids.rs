//! Identifiers: 128-bit UUID values, their generation and their canonical
//! hyphenated text form.

use vstd::prelude::*;

verus! {

/// Relies on `uuid::Uuid::new_v4` (read through `Uuid::as_u128`): a freshly
/// drawn random version-4 UUID. The value comes from the operating system's
/// random source, so nothing is promised of it beyond what the fixed version
/// and variant bits force: it is never the nil (all-zero) UUID.
#[verifier::external_body]
pub(crate) fn fresh_uuid() -> (r: u128)
    ensures
        r != 0,
{
    uuid::Uuid::new_v4().as_u128()
}

/// Lowercase hexadecimal digit with value `n`.
pub open spec fn hex_char(n: int) -> char {
    if n == 0 {
        '0'
    } else if n == 1 {
        '1'
    } else if n == 2 {
        '2'
    } else if n == 3 {
        '3'
    } else if n == 4 {
        '4'
    } else if n == 5 {
        '5'
    } else if n == 6 {
        '6'
    } else if n == 7 {
        '7'
    } else if n == 8 {
        '8'
    } else if n == 9 {
        '9'
    } else if n == 10 {
        'a'
    } else if n == 11 {
        'b'
    } else if n == 12 {
        'c'
    } else if n == 13 {
        'd'
    } else if n == 14 {
        'e'
    } else {
        'f'
    }
}

/// Nibble `k` of `id`, counting from the most significant.
pub open spec fn uuid_nibble(id: u128, k: int) -> u128 {
    (id >> ((4 * (31 - k)) as u128)) & 0xf
}

/// Which nibble the character at position `i` of the hyphenated form shows.
pub open spec fn uuid_nibble_index(i: int) -> int {
    if i < 8 {
        i
    } else if i < 13 {
        i - 1
    } else if i < 18 {
        i - 2
    } else if i < 23 {
        i - 3
    } else {
        i - 4
    }
}

/// The canonical hyphenated lowercase form of a UUID value: 8-4-4-4-12 hex
/// digits.
pub open spec fn uuid_seq(id: u128) -> Seq<char> {
    Seq::new(
        36,
        |i: int|
            if i == 8 || i == 13 || i == 18 || i == 23 {
                '-'
            } else {
                hex_char(uuid_nibble(id, uuid_nibble_index(i)) as int)
            },
    )
}

fn hex_digit_str(n: u8) -> (r: &'static str)
    requires
        n < 16,
    ensures
        r@ =~= seq![hex_char(n as int)],
{
    if n == 0 {
        proof {
            reveal_strlit("0");
        }
        "0"
    } else if n == 1 {
        proof {
            reveal_strlit("1");
        }
        "1"
    } else if n == 2 {
        proof {
            reveal_strlit("2");
        }
        "2"
    } else if n == 3 {
        proof {
            reveal_strlit("3");
        }
        "3"
    } else if n == 4 {
        proof {
            reveal_strlit("4");
        }
        "4"
    } else if n == 5 {
        proof {
            reveal_strlit("5");
        }
        "5"
    } else if n == 6 {
        proof {
            reveal_strlit("6");
        }
        "6"
    } else if n == 7 {
        proof {
            reveal_strlit("7");
        }
        "7"
    } else if n == 8 {
        proof {
            reveal_strlit("8");
        }
        "8"
    } else if n == 9 {
        proof {
            reveal_strlit("9");
        }
        "9"
    } else if n == 10 {
        proof {
            reveal_strlit("a");
        }
        "a"
    } else if n == 11 {
        proof {
            reveal_strlit("b");
        }
        "b"
    } else if n == 12 {
        proof {
            reveal_strlit("c");
        }
        "c"
    } else if n == 13 {
        proof {
            reveal_strlit("d");
        }
        "d"
    } else if n == 14 {
        proof {
            reveal_strlit("e");
        }
        "e"
    } else {
        proof {
            reveal_strlit("f");
        }
        "f"
    }
}

/// Render a UUID value in its canonical hyphenated lowercase form.
pub fn uuid_string(id: u128) -> (r: String)
    ensures
        r@ == uuid_seq(id),
        r@.len() == 36,
{
    let mut s = "".to_owned();
    proof {
        reveal_strlit("");
        assert(s@ =~= uuid_seq(id).subrange(0, 0));
    }
    let mut i: usize = 0;
    while i < 36
        invariant
            0 <= i <= 36,
            s@ =~= uuid_seq(id).subrange(0, i as int),
        decreases 36 - i,
    {
        if i == 8 || i == 13 || i == 18 || i == 23 {
            s.append("-");
            proof {
                reveal_strlit("-");
                assert(s@ =~= uuid_seq(id).subrange(0, i as int + 1));
            }
        } else {
            let k: u32 = if i < 8 {
                i as u32
            } else if i < 13 {
                i as u32 - 1
            } else if i < 18 {
                i as u32 - 2
            } else if i < 23 {
                i as u32 - 3
            } else {
                i as u32 - 4
            };
            let sh: u128 = (4 * (31 - k)) as u128;
            let nib: u128 = (id >> sh) & 0xf;
            proof {
                assert((id >> sh) & 0xf < 16) by (bit_vector);
            }
            let d = hex_digit_str(nib as u8);
            s.append(d);
            proof {
                assert(nib == uuid_nibble(id, uuid_nibble_index(i as int)));
                assert(s@ =~= uuid_seq(id).subrange(0, i as int + 1));
            }
        }
        i = i + 1;
    }
    proof {
        assert(uuid_seq(id).subrange(0, 36) =~= uuid_seq(id));
    }
    s
}

} // verus!
