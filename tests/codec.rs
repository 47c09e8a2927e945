use hvm::bimap::Bimap;
use hvm::disassembler::hasm_with_operand;
use hvm::errors::VMError;
use hvm::inst::Inst;
use hvm::program::Program;
use hvm::word::{Word, WordTag};

fn sample() -> Program {
    Program {
        insts: vec![
            Inst::InstPush(Word::Int(-2)),
            Inst::InstPush(Word::UInt(u64::MAX)),
            Inst::InstPush(Word::Float(2.5f64.to_bits())),
            Inst::InstAddi,
            Inst::InstSubi,
            Inst::InstMuli,
            Inst::InstDivi,
            Inst::InstAddf,
            Inst::InstSubf,
            Inst::InstMulf,
            Inst::InstDivf,
            Inst::InstHalt,
            Inst::InstJmp(Word::UInt(3)),
            Inst::InstEq(Word::UInt(7)),
            Inst::InstDup(Word::UInt(1)),
            Inst::InstNop,
        ],
    }
}

#[test]
fn binary_round_trip() {
    let p = sample();
    let bytes = p.to_bytes();
    assert_eq!(bytes.len(), 16 * p.insts.len());
    assert_eq!(Program::from_bytes(&bytes), Ok(p));
    assert_eq!(Program::from_bytes(&Vec::new()), Ok(Program { insts: Vec::new() }));
}

#[test]
fn record_layout() {
    let r = Inst::InstPush(Word::Int(-2)).to_bytes();
    assert_eq!(r[0..8], [0xF1, 0, 0, 0, 0, 0, 0, 0]);
    assert_eq!(r[8..16], (-2i64).to_le_bytes());
    assert_eq!(Inst::InstPush(Word::UInt(1)).to_bytes()[0], 0xF2);
    assert_eq!(Inst::InstPush(Word::Float(0)).to_bytes()[0], 0xF3);
    assert_eq!(Inst::InstJmp(Word::UInt(0x0102)).to_bytes()[0..10], [0x0B, 0, 0, 0, 0, 0, 0, 0, 2, 1]);
    assert_eq!(Inst::InstNop.to_bytes(), vec![0x0E, 0, 0, 0, 0, 0, 0, 0, 0, 0, 0, 0, 0, 0, 0, 0]);
}

#[test]
fn unknown_opcode_fails() {
    let mut bytes = sample().to_bytes();
    bytes[16] = 0x77;
    assert_eq!(Program::from_bytes(&bytes), Err(VMError::DeserializeOpcodeFail));
    assert_eq!(Inst::deser_opcode(0x01), None);
    assert_eq!(Inst::deser_opcode(0xF3), Some(Inst::InstPush(Word::Float(0))));
}

#[test]
fn word_bytes() {
    assert_eq!(Word::Int(-1).to_le_bytes(), vec![0xFF; 8]);
    assert_eq!(Word::UInt(0x0102030405060708).to_le_bytes(), vec![8, 7, 6, 5, 4, 3, 2, 1]);
    assert_eq!(Word::from_le_bytes(WordTag::Int, &[0xFF; 8]), Word::Int(-1));
    assert_eq!(Word::from_le_bytes(WordTag::Ptr, &[1, 0, 0, 0, 0, 0, 0, 0]), Word::Ptr(1));
    assert_eq!(Word::default(), Word::UInt(0));
}

#[test]
fn word_conversions_match_casts() {
    let floats = [
        0.0f64, -0.0, 3.7, -3.7, 0.999, 1e30, -1e30, 9.2e18, -9.3e18, 1.8e19, 2.0e19,
        f64::INFINITY, f64::NEG_INFINITY, f64::NAN, 5e-324, 4503599627370497.0,
        -9223372036854775808.0,
    ];
    for f in floats {
        let w = Word::Float(f.to_bits());
        assert_eq!(w.to_i64(), f as i64, "{}", f);
        assert_eq!(w.to_u64(), f as u64, "{}", f);
    }
    assert_eq!(Word::UInt(u64::MAX).to_i64(), -1);
    assert_eq!(Word::Int(-1).to_u64(), u64::MAX);
    assert_eq!(Word::Ptr(42).to_i64(), 42);
    assert!(Word::Float((-0.0f64).to_bits()).is_zero_as_float());
    assert!(!Word::Float(1e-300f64.to_bits()).is_zero_as_float());
    assert!(Word::Int(0).is_zero_as_float());
}

#[test]
fn word_value_equality() {
    let nan = Word::Float(f64::NAN.to_bits());
    assert!(!nan.same_as(&nan));
    assert!(Word::Float(0.0f64.to_bits()).same_as(&Word::Float((-0.0f64).to_bits())));
    assert!(!Word::Int(1).same_as(&Word::UInt(1)));
    assert!(Word::UInt(1).same_as(&Word::UInt(1)));
}

#[test]
fn disassembly_lines() {
    let p = Program {
        insts: vec![
            Inst::InstPush(Word::Int(-42)),
            Inst::InstPush(Word::Int(i64::MIN)),
            Inst::InstPush(Word::Ptr(255)),
            Inst::InstPush(Word::Float(0.5f64.to_bits())),
            Inst::InstJmp(Word::UInt(10)),
            Inst::InstAddf,
        ],
    };
    let mut texts = vec![String::new(); p.insts.len()];
    texts[3] = "0.5".to_string();
    assert_eq!(
        p.to_hasm(&texts),
        vec!["push -42", "push -9223372036854775808", "push 0xff", "push 0.5", "jmp 10", "addf"]
    );
    assert_eq!(Word::UInt(1234).to_text(), Some("1234".to_string()));
    assert_eq!(Word::Float(0).to_text(), None);
    assert_eq!(hasm_with_operand("dup".to_string(), "3"), "dup 3");
}

#[test]
fn textual_round_trip() {
    let p = Program {
        insts: vec![
            Inst::InstPush(Word::Int(-3)),
            Inst::InstPush(Word::Int(0)),
            Inst::InstPush(Word::UInt(u64::MAX)),
            Inst::InstJmp(Word::UInt(4)),
            Inst::InstEq(Word::UInt(0)),
            Inst::InstDup(Word::UInt(2)),
            Inst::InstDivi,
            Inst::InstNop,
            Inst::InstHalt,
        ],
    };
    let texts = vec![String::new(); p.insts.len()];
    let text = p.to_hasm(&texts).join("\n");
    let back = Program::from_hasm(&text).unwrap();
    assert_eq!(back.program, p);
}

#[test]
fn bimap_lookups() {
    let mut m: Bimap<u8, u32> = Bimap::new();
    m.insert(1, 10);
    m.insert(2, 20);
    m.insert(1, 30);
    assert_eq!(*m.extract_val(&1), 30);
    assert_eq!(*m.extract_val(&2), 20);
    assert_eq!(*m.extract_key(&10), 1);
    assert_eq!(*m.extract_key(&20), 2);
}
