use vstd::prelude::*;
use crate::preprocess::joined;

verus! {

/// The upper-case hexadecimal digit of `d`, as text.
pub open spec fn digit_text(d: u8) -> Seq<char> {
    "0123456789ABCDEF"@.subrange(d as int, d as int + 1)
}

/// A byte as two upper-case hexadecimal digits.
pub open spec fn byte_text(b: u8) -> Seq<char> {
    digit_text(b / 16) + digit_text(b % 16)
}

/// A listing entry that executes dynamically.
pub open spec fn dynamic(m: Seq<char>) -> Seq<char> {
    m + " @dyn"@
}

/// A listing entry for a byte read as data.
pub open spec fn data(b: u8) -> Seq<char> {
    "d"@ + byte_text(b) + "     "@
}

/// An arithmetic mnemonic with its size: bare for size 1, else with its last letter replaced
/// by the size.
pub open spec fn sized(name: Seq<char>, size_bits: u8) -> Seq<char> {
    if size_bits == 0 {
        name
    } else {
        name.drop_last() + digit_text((1u8 << size_bits) as u8)
    }
}

/// The listing entry of one byte of memory.
pub open spec fn mnemonic(b: u8) -> Seq<char> {
    if b < 0x80 {
        dynamic("x"@ + byte_text(b))
    } else if b < 0xC0 {
        let s = b % 4;
        let op = (b / 4) % 16;
        if op == 0x0 {
            dynamic(sized("add"@, s))
        } else if op == 0x1 {
            dynamic(sized("sub"@, s))
        } else if op == 0x4 {
            dynamic(sized("iff"@, s))
        } else if op == 0x5 {
            dynamic(sized("rot"@, s))
        } else if op == 0x8 {
            dynamic(sized("orr"@, s))
        } else if op == 0x9 {
            dynamic(sized("and"@, s))
        } else if op == 0xA {
            dynamic(sized("xor"@, s))
        } else if op == 0xB {
            dynamic(sized("xnd"@, s))
        } else if op == 0xC && s == 0 {
            dynamic("inc"@)
        } else if op == 0xC && s == 1 {
            dynamic("dec"@)
        } else if op == 0xC && s == 2 {
            dynamic("neg"@)
        } else if op == 0xD && s == 0 {
            dynamic("shl"@)
        } else if op == 0xD && s == 1 {
            dynamic("shr"@)
        } else if op == 0xD && s == 2 {
            dynamic("not"@)
        } else if op == 0xD && s == 3 {
            dynamic("buf"@)
        } else {
            data(b)
        }
    } else if b < 0xD0 {
        dynamic("ld"@ + digit_text(b % 16))
    } else if b < 0xE0 {
        dynamic("st"@ + digit_text(b % 16))
    } else if b < 0xF0 {
        let n = b % 16;
        if n == 0x0 {
            dynamic("lda"@)
        } else if n == 0x1 {
            dynamic("sta"@)
        } else if n == 0x2 {
            dynamic("ldi"@)
        } else if n == 0x3 {
            dynamic("sti"@)
        } else if n == 0x4 {
            dynamic("lds"@)
        } else if n == 0x5 {
            dynamic("sts"@)
        } else if n == 0x8 {
            dynamic("nop"@)
        } else if n == 0x9 {
            dynamic("clc"@)
        } else if n == 0xA {
            dynamic("sec"@)
        } else if n == 0xB {
            dynamic("flc"@)
        } else if n == 0xC {
            dynamic("swp"@)
        } else if n == 0xD {
            dynamic("pop"@)
        } else {
            data(b)
        }
    } else {
        dynamic("x"@ + byte_text(b))
    }
}

/// The listing line of the byte `b` at address `k`: its entry, then as a comment its address
/// as an origin and its value as data.
pub open spec fn listing_line(k: u8, b: u8) -> Seq<char> {
    mnemonic(b) + " # x"@ + byte_text(k) + " @org d"@ + byte_text(b)
}

/// The listing of a memory image as a macro named `entry`.
pub open spec fn disassembly(memory: Seq<u8>, entry: Seq<char>) -> Seq<char> {
    entry + "!\n"@ + joined(Seq::new(memory.len(), |k: int| listing_line(k as u8, memory[k])))
}

fn digit_string(d: u8) -> (r: String)
    requires
        d < 16,
    ensures
        r@ == digit_text(d),
{
    let digits = "0123456789ABCDEF";
    proof {
        reveal_strlit("0123456789ABCDEF");
    }
    String::from_str(digits.substring_char(d as usize, d as usize + 1))
}

fn byte_string(b: u8) -> (r: String)
    ensures
        r@ == byte_text(b),
{
    let high = digit_string(b / 16);
    high.concat(digit_string(b % 16).as_str())
}

fn dynamic_string(m: String) -> (r: String)
    ensures
        r@ == dynamic(m@),
{
    m.concat(" @dyn")
}

fn word(w: &str) -> (r: String)
    ensures
        r@ == w@,
{
    String::from_str(w)
}

fn sized_string(name: &str, size_bits: u8) -> (r: String)
    requires
        size_bits < 4,
        name@.len() == 3,
    ensures
        r@ == sized(name@, size_bits),
{
    if size_bits == 0 {
        word(name)
    } else {
        let size: u8 = 1u8 << size_bits;
        assert(size == (1u8 << size_bits) as u8);
        assert(size < 16) by (bit_vector)
            requires
                size == 1u8 << size_bits,
                size_bits < 4,
        ;
        let stem = String::from_str(name.substring_char(0, 2));
        assert(stem@ =~= name@.drop_last());
        stem.concat(digit_string(size).as_str())
    }
}

/// The listing entry of one byte.
pub fn mnemonic_of(b: u8) -> (r: String)
    ensures
        r@ == mnemonic(b),
{
    proof {
        reveal_strlit("add");
        reveal_strlit("sub");
        reveal_strlit("iff");
        reveal_strlit("rot");
        reveal_strlit("orr");
        reveal_strlit("and");
        reveal_strlit("xor");
        reveal_strlit("xnd");
    }
    if b < 0x80 {
        dynamic_string(String::from_str("x").concat(byte_string(b).as_str()))
    } else if b < 0xC0 {
        let s = b % 4;
        let op = (b / 4) % 16;
        if op == 0x0 {
            dynamic_string(sized_string("add", s))
        } else if op == 0x1 {
            dynamic_string(sized_string("sub", s))
        } else if op == 0x4 {
            dynamic_string(sized_string("iff", s))
        } else if op == 0x5 {
            dynamic_string(sized_string("rot", s))
        } else if op == 0x8 {
            dynamic_string(sized_string("orr", s))
        } else if op == 0x9 {
            dynamic_string(sized_string("and", s))
        } else if op == 0xA {
            dynamic_string(sized_string("xor", s))
        } else if op == 0xB {
            dynamic_string(sized_string("xnd", s))
        } else if op == 0xC && s == 0 {
            dynamic_string(word("inc"))
        } else if op == 0xC && s == 1 {
            dynamic_string(word("dec"))
        } else if op == 0xC && s == 2 {
            dynamic_string(word("neg"))
        } else if op == 0xD && s == 0 {
            dynamic_string(word("shl"))
        } else if op == 0xD && s == 1 {
            dynamic_string(word("shr"))
        } else if op == 0xD && s == 2 {
            dynamic_string(word("not"))
        } else if op == 0xD && s == 3 {
            dynamic_string(word("buf"))
        } else {
            data_string(b)
        }
    } else if b < 0xD0 {
        dynamic_string(String::from_str("ld").concat(digit_string(b % 16).as_str()))
    } else if b < 0xE0 {
        dynamic_string(String::from_str("st").concat(digit_string(b % 16).as_str()))
    } else if b < 0xF0 {
        let n = b % 16;
        if n == 0x0 {
            dynamic_string(word("lda"))
        } else if n == 0x1 {
            dynamic_string(word("sta"))
        } else if n == 0x2 {
            dynamic_string(word("ldi"))
        } else if n == 0x3 {
            dynamic_string(word("sti"))
        } else if n == 0x4 {
            dynamic_string(word("lds"))
        } else if n == 0x5 {
            dynamic_string(word("sts"))
        } else if n == 0x8 {
            dynamic_string(word("nop"))
        } else if n == 0x9 {
            dynamic_string(word("clc"))
        } else if n == 0xA {
            dynamic_string(word("sec"))
        } else if n == 0xB {
            dynamic_string(word("flc"))
        } else if n == 0xC {
            dynamic_string(word("swp"))
        } else if n == 0xD {
            dynamic_string(word("pop"))
        } else {
            data_string(b)
        }
    } else {
        dynamic_string(String::from_str("x").concat(byte_string(b).as_str()))
    }
}

fn data_string(b: u8) -> (r: String)
    ensures
        r@ == data(b),
{
    String::from_str("d").concat(byte_string(b).as_str()).concat("     ")
}

/// Lists a memory image as assembly source: a macro named `entry_point`, then one line per
/// byte with the instruction it decodes to and, as a comment, its address and value.
pub fn disassemble(memory: [u8; 256], entry_point: &str) -> (r: String)
    ensures
        r@ == disassembly(memory@, entry_point@),
{
    let ghost parts = Seq::new(memory@.len(), |k: int| listing_line(k as u8, memory@[k]));
    let mut body = String::new();
    let mut i: usize = 0;
    while i < 256
        invariant
            i <= memory@.len() == 256,
            parts == Seq::new(memory@.len(), |k: int| listing_line(k as u8, memory@[k])),
            body@ == joined(parts.take(i as int)),
        decreases memory@.len() - i,
    {
        assert(parts.take(i + 1).drop_last() =~= parts.take(i as int));
        if i > 0 {
            body.append("\n");
            proof {
                reveal_strlit("\n");
            }
        }
        let line = mnemonic_of(memory[i]).concat(" # x").concat(byte_string(i as u8).as_str()).concat(
            " @org d",
        ).concat(byte_string(memory[i]).as_str());
        body.append(line.as_str());
        assert(body@ =~= joined(parts.take(i + 1))) by {
            if i == 0 {
                assert(parts.take(1) =~= seq![parts[0]]);
            }
        }
        i = i + 1;
    }
    assert(parts.take(i as int) =~= parts);
    String::from_str(entry_point).concat("!\n").concat(body.as_str())
}

} // verus!
