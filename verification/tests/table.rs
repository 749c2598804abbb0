use smolv::table::{classify, OperandLayout, Role, Shape, WordCount, KNOWN_OPCODES, LAYOUTS};

#[test]
fn table_has_an_entry_for_each_known_opcode() {
    assert_eq!(LAYOUTS.len(), KNOWN_OPCODES);
    assert_eq!(KNOWN_OPCODES, 367);
}

#[test]
fn arithmetic_has_type_result_and_two_references() {
    let add = classify(128);
    assert_eq!(
        add,
        OperandLayout {
            shape: Shape::TypedResult,
            literals: 0,
            refs: 2,
            tail: Role::Literal,
            words: WordCount::Fixed(5),
            debug: false,
        }
    );
    assert_eq!(add.role(0), Role::TypeId);
    assert_eq!(add.role(1), Role::ResultId);
    assert_eq!(add.role(2), Role::IdRef);
    assert_eq!(add.role(3), Role::IdRef);
    assert_eq!(add.role(4), Role::Literal);
}

#[test]
fn integer_type_has_result_and_two_literals() {
    let int = classify(21);
    assert_eq!(int.shape, Shape::Result);
    assert_eq!(int.words, WordCount::Fixed(4));
    assert_eq!(int.role(0), Role::ResultId);
    assert_eq!(int.role(1), Role::Literal);
    assert_eq!(int.role(2), Role::Literal);
}

#[test]
fn variable_has_a_literal_before_its_reference() {
    let variable = classify(59);
    assert_eq!(variable.shape, Shape::TypedResult);
    assert_eq!(variable.words, WordCount::AtLeast(4));
    assert_eq!(variable.role(0), Role::TypeId);
    assert_eq!(variable.role(1), Role::ResultId);
    assert_eq!(variable.role(2), Role::Literal);
    assert_eq!(variable.role(3), Role::IdRef);
}

#[test]
fn store_has_two_references_then_literals() {
    let store = classify(62);
    assert_eq!(store.shape, Shape::Plain);
    assert_eq!(store.role(0), Role::IdRef);
    assert_eq!(store.role(1), Role::IdRef);
    assert_eq!(store.role(2), Role::Literal);
    assert_eq!(store.words, WordCount::AtLeast(3));
}

#[test]
fn access_chain_goes_on_with_references() {
    let chain = classify(65);
    assert_eq!(chain.role(2), Role::IdRef);
    assert_eq!(chain.role(3), Role::IdRef);
    assert_eq!(chain.role(40), Role::IdRef);
}

#[test]
fn debug_instructions_are_marked() {
    for opcode in [2u16, 3, 4, 5, 6, 7, 8, 317, 330] {
        assert!(classify(opcode).debug, "opcode {}", opcode);
    }
    let marked = (0..KNOWN_OPCODES as u16).filter(|op| classify(*op).debug).count();
    assert_eq!(marked, 9);
}

#[test]
fn other_instructions_are_not_debug() {
    for opcode in [0u16, 1, 10, 11, 17, 19, 54, 61, 62, 71, 128, 248, 253, 366] {
        assert!(!classify(opcode).debug, "opcode {}", opcode);
    }
}

#[test]
fn unknown_opcode_falls_back_to_literals() {
    for opcode in [367u16, 400, 4000, 5000, u16::MAX] {
        let layout = classify(opcode);
        assert_eq!(layout, OperandLayout::fallback());
        assert_eq!(layout.shape, Shape::Plain);
        assert!(!layout.debug);
        assert_eq!(layout.words, WordCount::AtLeast(1));
        for position in [0usize, 1, 2, 100, 65_534] {
            assert_eq!(layout.role(position), Role::Literal);
        }
    }
}

#[test]
fn free_opcode_numbers_have_the_fallback_layout() {
    for opcode in [9u16, 13, 18, 40, 47, 53, 58, 76, 85, 108, 125, 153, 192, 193] {
        assert_eq!(classify(opcode), OperandLayout::fallback());
    }
}

#[test]
fn word_count_allows() {
    assert!(WordCount::Fixed(5).allows(5));
    assert!(!WordCount::Fixed(5).allows(4));
    assert!(!WordCount::Fixed(5).allows(6));
    assert!(WordCount::AtLeast(3).allows(3));
    assert!(WordCount::AtLeast(3).allows(300));
    assert!(!WordCount::AtLeast(3).allows(2));
}

#[test]
fn every_entry_has_at_least_one_word() {
    for opcode in 0..KNOWN_OPCODES as u16 {
        match classify(opcode).words {
            WordCount::Fixed(n) => assert!(n >= 1),
            WordCount::AtLeast(n) => assert!(n >= 1),
        }
    }
}
