use stevia::fixint::{Block, FixInt, FixIntModel, FixIntModelMut, Storage, BITS_PER_BLOCK, INLINED_BITS};

fn decode_model(m: FixIntModel) -> u128 {
    match m {
        FixIntModel::C8(v) => v as u128,
        FixIntModel::C16(v) => v as u128,
        FixIntModel::C32(v) => v as u128,
        FixIntModel::C64(v) => v as u128,
        FixIntModel::Var(c) => {
            let mut acc: u128 = 0;
            for (i, b) in c.0.iter().enumerate() {
                if i < 2 {
                    acc |= (b.0 as u128) << (64 * i);
                }
            }
            acc
        }
    }
}

#[test]
fn inline_byte_is_truncated() {
    let x = FixInt::new(8, 300);
    assert_eq!(x.bits(), 8);
    assert_eq!(x.storage(), Storage::Inl);
    assert!(matches!(x.model(), FixIntModel::C8(44)));
}

#[test]
fn canonical_widths_give_native_views() {
    assert!(matches!(FixInt::new(16, 0x1_2345).model(), FixIntModel::C16(0x2345)));
    assert!(matches!(FixInt::new(32, 0x1_0000_0007).model(), FixIntModel::C32(7)));
    assert!(matches!(FixInt::new(64, u64::MAX).model(), FixIntModel::C64(u64::MAX)));
}

#[test]
fn odd_inline_width_gives_one_block() {
    let x = FixInt::new(12, 0xFFFF);
    match x.model() {
        FixIntModel::Var(c) => assert_eq!(c.0, &[Block(0xFFF)][..]),
        _ => panic!("expected a block view"),
    }
}

#[test]
fn wide_value_is_external() {
    let x = FixInt::new(130, 5);
    assert_eq!(x.storage(), Storage::Ext);
    assert_eq!(x.chain().0, &[Block(5), Block(0), Block(0)][..]);
    let y = FixInt::new(65, 9);
    assert_eq!(y.storage(), Storage::Ext);
    assert_eq!(y.chain().0.len(), 2);
}

#[test]
fn block_constants() {
    assert_eq!(BITS_PER_BLOCK, 64);
    assert_eq!(INLINED_BITS, 64);
}

#[test]
fn inline_and_external_views_agree() {
    let value: u64 = 0xDEAD_BEEF_CAFE_F00D;
    for w in 1..=64u32 {
        let x = FixInt::new(w, value);
        let fixed = decode_model(x.model());
        let chain = x.chain();
        assert_eq!(chain.0.len(), 1);
        let ext = [Block(chain.0[0].0)];
        let generic = decode_model(FixIntModel::Var(stevia::fixint::BlockChain(&ext)));
        assert_eq!(fixed, generic);
        let expected = if w == 64 { value as u128 } else { (value as u128) % (1u128 << w) };
        assert_eq!(fixed, expected);
    }
}

#[test]
fn mutable_view_writes_through() {
    let mut x = FixInt::new(8, 1);
    match x.model_mut() {
        FixIntModelMut::C8(w) => *w = 200,
        _ => panic!("expected an 8-bit view"),
    }
    assert!(matches!(x.model(), FixIntModel::C8(200)));
    let mut y = FixInt::new(100, 0);
    match y.model_mut() {
        FixIntModelMut::Var(c) => c.0[1] = Block(7),
        _ => panic!("expected a block view"),
    }
    assert_eq!(y.chain().0, &[Block(0), Block(7)][..]);
}

#[test]
fn wide_and_zero_widths_give_block_views() {
    match FixInt::new(130, 5).model() {
        FixIntModel::Var(c) => assert_eq!(c.0, &[Block(5), Block(0), Block(0)][..]),
        _ => panic!("expected a block view"),
    }
    match FixInt::new(0, 5).model() {
        FixIntModel::Var(c) => assert_eq!(c.0, &[Block(0)][..]),
        _ => panic!("expected a block view"),
    }
}
