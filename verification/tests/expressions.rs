use libwild::alignment::Alignment;
use libwild::expression::{AssertCommand, Expression};
use libwild::expression_eval::{data_segment_align, EvalEnv, EvalError, SymbolTable, SymbolValue};
use libwild::internal_symbols::SymbolPlacement;
use libwild::macho_sections::built_in_section_infos;
use libwild::macho_segments::platform_sections;
use libwild::memory_regions::{
    memory_flags_match, pick_compatible_memory_region, MemoryFlags, MemoryRegion, MemoryRegions,
};
use libwild::output_kind::{OutputKind, RelocationModel};
use libwild::output_section_id::PartId;
use libwild::output_section_map::OutputSectionMap;
use libwild::output_section_part_map::OutputSectionPartMap;
use libwild::output_sections::{OutputSections, SectionIdentity};
use libwild::output_sections_update::NamedSection;
use libwild::record_layout::OutputRecordLayout;

fn sections_for_testing() -> OutputSections<'static> {
    let mut sections = OutputSections::with_base_address(
        platform_sections(),
        built_in_section_infos(),
        0x1000,
        OutputKind::StaticExecutable(RelocationModel::Fixed),
    );
    for name in [&b"ro"[..], b"exec", b"data", b"bss"] {
        sections.add_named_section(
            SectionIdentity::new(name, None),
            NamedSection {
                min_alignment: Alignment::one(),
                region_name: None,
                location_info: None,
                fill: None,
                phdrs: &[],
            },
        );
    }
    sections
}

fn evaluate<'data>(
    expression: &Expression<'data>,
    regions: &MemoryRegions,
    location: Option<u64>,
) -> Result<u64, EvalError<'data>> {
    let sections = sections_for_testing();
    let layouts: OutputSectionMap<OutputRecordLayout> = sections.new_section_map();
    let part_offsets: OutputSectionPartMap<Option<u64>> = sections.new_part_map();
    let mut symbols = SymbolTable::new();
    symbols.define(b"one".to_vec(), SymbolValue::Absolute(1));
    expression.evaluate(&EvalEnv {
        location,
        regions,
        sections: &sections,
        layouts: &layouts,
        symbols: &symbols,
        part_offsets: &part_offsets,
        sizeof_headers: 0x40,
        next_section: (8, 24),
    })
}

fn eval_const<'data>(expression: &Expression<'data>) -> Result<u64, EvalError<'data>> {
    evaluate(expression, &MemoryRegions::new(), None)
}

#[test]
fn test_number() {
    assert_eq!(eval_const(&Expression::Number(42)).unwrap(), 42);
    assert_eq!(eval_const(&Expression::Number(0)).unwrap(), 0);
}

#[test]
fn test_absolute() {
    let difference =
        Expression::Subtract(&Expression::Number(0x400010), &Expression::Number(0x400000));
    let expr = Expression::Absolute(&difference);
    assert_eq!(eval_const(&expr).unwrap(), 0x10);
}

#[test]
fn test_arithmetic() {
    let add = Expression::Add(&Expression::Number(2), &Expression::Number(3));
    assert_eq!(eval_const(&add).unwrap(), 5);

    let sub = Expression::Subtract(&Expression::Number(10), &Expression::Number(4));
    assert_eq!(eval_const(&sub).unwrap(), 6);

    let mul = Expression::Multiply(&Expression::Number(3), &Expression::Number(4));
    assert_eq!(eval_const(&mul).unwrap(), 12);

    let div = Expression::Divide(&Expression::Number(10), &Expression::Number(2));
    assert_eq!(eval_const(&div).unwrap(), 5);
}

#[test]
fn test_wrapping_arithmetic() {
    // u64::MAX + 1 wraps to 0.
    let expr = Expression::Add(&Expression::Number(u64::MAX), &Expression::Number(1));
    assert_eq!(eval_const(&expr).unwrap(), 0);

    // 0 - 1 wraps to u64::MAX.
    let expr = Expression::Subtract(&Expression::Number(0), &Expression::Number(1));
    assert_eq!(eval_const(&expr).unwrap(), u64::MAX);
}

#[test]
fn test_operator_precedence() {
    // 1 + (2 * 3) = 7
    let product = Expression::Multiply(&Expression::Number(2), &Expression::Number(3));
    let expr = Expression::Add(&Expression::Number(1), &product);
    assert_eq!(eval_const(&expr).unwrap(), 7);
}

#[test]
fn test_comparisons() {
    let n1 = Expression::Number(1);
    let n2 = Expression::Number(2);
    let n3 = Expression::Number(3);
    let n4 = Expression::Number(4);
    let n5 = Expression::Number(5);
    let n6 = Expression::Number(6);

    // LessThan
    assert_eq!(eval_const(&Expression::LessThan(&n1, &n2)).unwrap(), 1);
    assert_eq!(eval_const(&Expression::LessThan(&n2, &n1)).unwrap(), 0);
    assert_eq!(eval_const(&Expression::LessThan(&n5, &n5)).unwrap(), 0);

    // GreaterThan
    assert_eq!(eval_const(&Expression::GreaterThan(&n3, &n2)).unwrap(), 1);
    assert_eq!(eval_const(&Expression::GreaterThan(&n2, &n3)).unwrap(), 0);
    assert_eq!(eval_const(&Expression::GreaterThan(&n5, &n5)).unwrap(), 0);

    // LessEqual
    assert_eq!(eval_const(&Expression::LessEqual(&n1, &n2)).unwrap(), 1);
    assert_eq!(eval_const(&Expression::LessEqual(&n5, &n5)).unwrap(), 1);
    assert_eq!(eval_const(&Expression::LessEqual(&n6, &n5)).unwrap(), 0);

    // GreaterEqual
    assert_eq!(eval_const(&Expression::GreaterEqual(&n5, &n5)).unwrap(), 1);
    assert_eq!(eval_const(&Expression::GreaterEqual(&n6, &n5)).unwrap(), 1);
    assert_eq!(eval_const(&Expression::GreaterEqual(&n4, &n5)).unwrap(), 0);

    // Equal / NotEqual
    assert_eq!(eval_const(&Expression::Equal(&n5, &n5)).unwrap(), 1);
    assert_eq!(eval_const(&Expression::Equal(&n5, &n6)).unwrap(), 0);
    assert_eq!(eval_const(&Expression::NotEqual(&n5, &n6)).unwrap(), 1);
    assert_eq!(eval_const(&Expression::NotEqual(&n5, &n5)).unwrap(), 0);
}

#[test]
fn test_min_max() {
    let n3 = Expression::Number(3);
    let n5 = Expression::Number(5);
    let n7 = Expression::Number(7);
    assert_eq!(eval_const(&Expression::Min(&n3, &n7)).unwrap(), 3);
    assert_eq!(eval_const(&Expression::Min(&n7, &n3)).unwrap(), 3);
    assert_eq!(eval_const(&Expression::Max(&n3, &n7)).unwrap(), 7);
    assert_eq!(eval_const(&Expression::Max(&n7, &n3)).unwrap(), 7);
    // equal values
    assert_eq!(eval_const(&Expression::Min(&n5, &n5)).unwrap(), 5);
    assert_eq!(eval_const(&Expression::Max(&n5, &n5)).unwrap(), 5);
}

#[test]
fn test_data_segment_align_formula() {
    // 0x401234, 4KiB page: 0x402234 (next page, same in-page offset)
    assert_eq!(data_segment_align(0x401234, 0x1000), 0x402234);
    assert_eq!(data_segment_align(0x402000, 0x1000), 0x402000);
    assert_eq!(data_segment_align(0x10, 1), 0x10);
}

#[test]
fn test_align() {
    // ALIGN(8) with location counter 0
    assert_eq!(
        eval_const(&Expression::Align(&Expression::Number(8), None)).unwrap(),
        0
    );
    // ALIGN(1)
    assert_eq!(
        eval_const(&Expression::Align(&Expression::Number(1), None)).unwrap(),
        0
    );
}

#[test]
fn test_log2ceil() {
    assert_eq!(
        eval_const(&Expression::Log2Ceil(&Expression::Number(0))).unwrap(),
        0
    );
    assert_eq!(
        eval_const(&Expression::Log2Ceil(&Expression::Number(1))).unwrap(),
        0
    );
    assert_eq!(
        eval_const(&Expression::Log2Ceil(&Expression::Number(3))).unwrap(),
        2
    );
    assert_eq!(
        eval_const(&Expression::Log2Ceil(&Expression::Number(0x1ff))).unwrap(),
        9
    );
}

#[test]
fn test_align_zero_is_noop() {
    // ALIGN(0) and ALIGN(value, 0) leave the value unchanged.
    assert_eq!(
        eval_const(&Expression::Align(&Expression::Number(0), None)).unwrap(),
        0
    );
    assert_eq!(
        eval_const(&Expression::Align(
            &Expression::Number(0),
            Some(&Expression::Number(0x400004)),
        ))
        .unwrap(),
        0x400004
    );
}

#[test]
fn test_divide_by_zero() {
    let expr = Expression::Divide(&Expression::Number(10), &Expression::Number(0));
    assert!(eval_const(&expr).is_err());
}

#[test]
fn test_modulo_by_zero() {
    let expr = Expression::Modulo(&Expression::Number(10), &Expression::Number(0));
    assert!(eval_const(&expr).is_err());
}

#[test]
fn test_location_counter_is_zero() {
    // The location counter is 0 where there is none.
    assert_eq!(eval_const(&Expression::LocationCounter).unwrap(), 0);
}

#[test]
fn test_alignof_evaluation() {
    // A section that does not exist has alignment 0.
    assert_eq!(
        eval_const(&Expression::Alignof(b".nonexistent")).unwrap(),
        0
    );
}

/// Evaluates what a script defines, which may be assertions.
fn evaluate_assertions<'data>(
    definitions: &[SymbolPlacement<'data>],
) -> Result<(), EvalError<'data>> {
    for definition in definitions {
        let SymbolPlacement::Redirect(expression) = definition else {
            continue;
        };
        eval_const(expression)?;
    }
    Ok(())
}

#[test]
fn test_evaluate_assertions_passes() {
    let equal = Expression::Equal(&Expression::Number(1), &Expression::Number(1));
    let script = [SymbolPlacement::Redirect(Expression::Assert(AssertCommand {
        expression: &equal,
        message: b"should pass",
    }))];
    assert!(evaluate_assertions(&script).is_ok());
}

#[test]
fn test_evaluate_assertions_fails() {
    let script = [SymbolPlacement::Redirect(Expression::Assert(AssertCommand {
        expression: &Expression::Number(0),
        message: b"intentional failure",
    }))];
    let err = evaluate_assertions(&script).unwrap_err();
    match err {
        EvalError::AssertionFailed(message) => assert_eq!(message, b"intentional failure"),
        _ => panic!("unexpected error"),
    }
}

#[test]
fn test_memory_functions_evaluation() {
    let mut regions = MemoryRegions::new();
    regions.set(
        b"rom".to_vec(),
        MemoryRegion {
            origin: 0x08000000,
            length: 0x100000,
            used: 0,
            used_lma: 0,
            flags: None,
        },
    );
    regions.set(
        b"ram".to_vec(),
        MemoryRegion {
            origin: 0x20000000,
            length: 0x40000,
            used: 0,
            used_lma: 0,
            flags: None,
        },
    );
    let eval = |expr: &Expression<'static>| evaluate(expr, &regions, None);
    assert_eq!(eval(&Expression::Origin(b"rom")).unwrap(), 0x08000000);
    assert_eq!(eval(&Expression::Length(b"rom")).unwrap(), 0x100000);
    assert_eq!(eval(&Expression::Origin(b"ram")).unwrap(), 0x20000000);
    assert_eq!(eval(&Expression::Length(b"ram")).unwrap(), 0x40000);
    // The end of rom is its origin plus its length.
    let end = Expression::Add(&Expression::Origin(b"rom"), &Expression::Length(b"rom"));
    assert_eq!(eval(&end).unwrap(), 0x08100000);
    assert!(eval(&Expression::Origin(b"flash")).is_err());
}

#[test]
fn errors_say_what_is_wrong() {
    let n0 = Expression::Number(0);
    assert!(matches!(
        eval_const(&Expression::Divide(&n0, &n0)),
        Err(EvalError::DivisionByZero)
    ));
    assert!(matches!(
        eval_const(&Expression::Modulo(&n0, &n0)),
        Err(EvalError::DivisionByZero)
    ));
    assert!(matches!(
        eval_const(&Expression::Symbol(b"missing")),
        Err(EvalError::UnknownSymbol(b"missing"))
    ));
    assert!(matches!(
        eval_const(&Expression::Length(b"flash")),
        Err(EvalError::UnknownRegion(b"flash"))
    ));
    let symbol = Expression::Symbol(b"one");
    assert_eq!(
        eval_const(&Expression::Add(&symbol, &Expression::Number(1))).unwrap(),
        2
    );
}

#[test]
fn location_counter_is_aligned() {
    let n16 = Expression::Number(16);
    let regions = MemoryRegions::new();
    assert_eq!(
        evaluate(&Expression::Align(&n16, None), &regions, Some(0x1001)).unwrap(),
        0x1010
    );
    assert_eq!(
        evaluate(&Expression::LocationCounter, &regions, Some(0x1001)).unwrap(),
        0x1001
    );
    assert_eq!(
        evaluate(&Expression::SizeofHeaders, &regions, None).unwrap(),
        0x40
    );
    assert_eq!(
        evaluate(&Expression::SizeofNextSection, &regions, None).unwrap(),
        24
    );
    assert_eq!(
        evaluate(&Expression::AlignofNextSection, &regions, None).unwrap(),
        8
    );
}

#[test]
fn symbols_are_relative_to_parts() {
    let sections = sections_for_testing();
    let layouts: OutputSectionMap<OutputRecordLayout> = sections.new_section_map();
    let mut part_offsets: OutputSectionPartMap<Option<u64>> = sections.new_part_map();
    part_offsets.set(PartId(3), Some(0x2000));
    let mut symbols = SymbolTable::new();
    symbols.define(
        b"entry".to_vec(),
        SymbolValue::PartRelative {
            part_id: PartId(3),
            offset: 0x18,
        },
    );
    symbols.define(
        b"early".to_vec(),
        SymbolValue::PartRelative {
            part_id: PartId(4),
            offset: 0,
        },
    );
    let regions = MemoryRegions::new();
    let env = EvalEnv {
        location: None,
        regions: &regions,
        sections: &sections,
        layouts: &layouts,
        symbols: &symbols,
        part_offsets: &part_offsets,
        sizeof_headers: 0,
        next_section: (0, 0),
    };
    assert_eq!(Expression::Symbol(b"entry").evaluate(&env).unwrap(), 0x2018);
    assert!(matches!(
        Expression::Symbol(b"early").evaluate(&env),
        Err(EvalError::NotLaidOut(b"early"))
    ));
}

#[test]
fn sections_go_into_compatible_regions() {
    let mut regions = MemoryRegions::new();
    let region = MemoryRegion {
        origin: 0,
        length: 0x1000,
        used: 0,
        used_lma: 0,
        flags: Some(MemoryFlags {
            write: false,
            execute: true,
        }),
    };
    regions.set(b"code".to_vec(), region);
    regions.set(
        b"data".to_vec(),
        MemoryRegion {
            flags: Some(MemoryFlags {
                write: true,
                execute: false,
            }),
            ..region
        },
    );
    let order: Vec<&[u8]> = vec![b"code", b"data"];
    assert_eq!(
        pick_compatible_memory_region(&regions, &order, true, false, true),
        Some(&b"code"[..])
    );
    assert_eq!(
        pick_compatible_memory_region(&regions, &order, true, true, false),
        Some(&b"data"[..])
    );
    assert!(!memory_flags_match(region.flags, true, false));
}
