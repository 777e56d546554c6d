use core_probe::co_tier::{classify_co, detect_generation, AmdGeneration, CoTier};

#[test]
fn given_5900x_model_name_when_detecting_generation_then_returns_zen3() {
    let result = detect_generation("AMD Ryzen 9 5900X 12-Core Processor");

    assert_eq!(result, AmdGeneration::Zen3);
}

#[test]
fn given_5600x_model_name_when_detecting_generation_then_returns_zen3() {
    let result = detect_generation("AMD Ryzen 5 5600X 6-Core Processor");

    assert_eq!(result, AmdGeneration::Zen3);
}

#[test]
fn given_5700g_model_name_when_detecting_generation_then_returns_zen3() {
    let result = detect_generation("AMD Ryzen 7 5700G");

    assert_eq!(result, AmdGeneration::Zen3);
}

#[test]
fn given_7800x3d_model_name_when_detecting_generation_then_returns_zen4() {
    let result = detect_generation("AMD Ryzen 7 7800X3D 8-Core Processor");

    assert_eq!(result, AmdGeneration::Zen4);
}

#[test]
fn given_7950x_model_name_when_detecting_generation_then_returns_zen4() {
    let result = detect_generation("AMD Ryzen 9 7950X 16-Core Processor");

    assert_eq!(result, AmdGeneration::Zen4);
}

#[test]
fn given_8700g_model_name_when_detecting_generation_then_returns_zen4() {
    let result = detect_generation("AMD Ryzen 7 8700G");

    assert_eq!(result, AmdGeneration::Zen4);
}

#[test]
fn given_8600g_model_name_when_detecting_generation_then_returns_zen4() {
    let result = detect_generation("AMD Ryzen 5 8600G");

    assert_eq!(result, AmdGeneration::Zen4);
}

#[test]
fn given_9950x_model_name_when_detecting_generation_then_returns_zen5() {
    let result = detect_generation("AMD Ryzen 9 9950X 16-Core Processor");

    assert_eq!(result, AmdGeneration::Zen5);
}

#[test]
fn given_9800x3d_model_name_when_detecting_generation_then_returns_zen5() {
    let result = detect_generation("AMD Ryzen 7 9800X3D");

    assert_eq!(result, AmdGeneration::Zen5);
}

#[test]
fn given_non_ryzen_model_name_when_detecting_generation_then_returns_unknown() {
    let result = detect_generation("Intel Core i9-13900K");

    assert_eq!(result, AmdGeneration::Unknown);
}

#[test]
fn given_empty_model_name_when_detecting_generation_then_returns_unknown() {
    let result = detect_generation("");

    assert_eq!(result, AmdGeneration::Unknown);
}

#[test]
fn given_zen3_and_minus_25_when_classifying_then_returns_gold() {
    let result = classify_co(-25, AmdGeneration::Zen3);

    assert_eq!(result, CoTier::Gold);
}

#[test]
fn given_zen3_and_minus_24_when_classifying_then_returns_silver() {
    let result = classify_co(-24, AmdGeneration::Zen3);

    assert_eq!(result, CoTier::Silver);
}

#[test]
fn given_zen3_and_minus_15_when_classifying_then_returns_silver() {
    let result = classify_co(-15, AmdGeneration::Zen3);

    assert_eq!(result, CoTier::Silver);
}

#[test]
fn given_zen3_and_minus_14_when_classifying_then_returns_bronze() {
    let result = classify_co(-14, AmdGeneration::Zen3);

    assert_eq!(result, CoTier::Bronze);
}

#[test]
fn given_zen3_and_minus_5_when_classifying_then_returns_bronze() {
    let result = classify_co(-5, AmdGeneration::Zen3);

    assert_eq!(result, CoTier::Bronze);
}

#[test]
fn given_zen3_and_minus_4_when_classifying_then_returns_neutral() {
    let result = classify_co(-4, AmdGeneration::Zen3);

    assert_eq!(result, CoTier::Neutral);
}

#[test]
fn given_zen4_and_minus_28_when_classifying_then_returns_gold() {
    let result = classify_co(-28, AmdGeneration::Zen4);

    assert_eq!(result, CoTier::Gold);
}

#[test]
fn given_zen4_and_minus_27_when_classifying_then_returns_silver() {
    let result = classify_co(-27, AmdGeneration::Zen4);

    assert_eq!(result, CoTier::Silver);
}

#[test]
fn given_zen5_and_minus_30_when_classifying_then_returns_gold() {
    let result = classify_co(-30, AmdGeneration::Zen5);

    assert_eq!(result, CoTier::Gold);
}

#[test]
fn given_zen5_and_minus_29_when_classifying_then_returns_silver() {
    let result = classify_co(-29, AmdGeneration::Zen5);

    assert_eq!(result, CoTier::Silver);
}

#[test]
fn given_unknown_generation_when_classifying_then_returns_neutral() {
    let result = classify_co(-30, AmdGeneration::Unknown);

    assert_eq!(result, CoTier::Neutral);
}

#[test]
fn given_zen3_and_zero_when_classifying_then_returns_neutral() {
    let result = classify_co(0, AmdGeneration::Zen3);

    assert_eq!(result, CoTier::Neutral);
}

#[test]
fn given_zen3_and_positive_15_when_classifying_then_returns_neutral() {
    let result = classify_co(15, AmdGeneration::Zen3);

    assert_eq!(result, CoTier::Neutral);
}

#[test]
fn given_zen3_and_minus_50_when_classifying_then_returns_gold() {
    let result = classify_co(-50, AmdGeneration::Zen3);

    assert_eq!(result, CoTier::Gold);
}

#[test]
fn given_zen6_and_minus_32_when_classifying_then_returns_gold() {
    let result = classify_co(-32, AmdGeneration::Zen6);

    assert_eq!(result, CoTier::Gold);
}

#[test]
fn given_zen6_and_minus_31_when_classifying_then_returns_silver() {
    let result = classify_co(-31, AmdGeneration::Zen6);

    assert_eq!(result, CoTier::Silver);
}

#[test]
fn given_zen6_and_minus_22_when_classifying_then_returns_silver() {
    let result = classify_co(-22, AmdGeneration::Zen6);

    assert_eq!(result, CoTier::Silver);
}

#[test]
fn given_zen6_and_minus_21_when_classifying_then_returns_bronze() {
    let result = classify_co(-21, AmdGeneration::Zen6);

    assert_eq!(result, CoTier::Bronze);
}

#[test]
fn given_zen6_and_minus_12_when_classifying_then_returns_bronze() {
    let result = classify_co(-12, AmdGeneration::Zen6);

    assert_eq!(result, CoTier::Bronze);
}

#[test]
fn given_zen6_and_minus_11_when_classifying_then_returns_neutral() {
    let result = classify_co(-11, AmdGeneration::Zen6);

    assert_eq!(result, CoTier::Neutral);
}

#[test]
fn test_display_zen3_through_zen6_and_unknown() {
    assert_eq!(AmdGeneration::Zen3.label(), "Zen 3");
    assert_eq!(AmdGeneration::Zen4.label(), "Zen 4");
    assert_eq!(AmdGeneration::Zen5.label(), "Zen 5");
    assert_eq!(AmdGeneration::Zen6.label(), "Zen 6");
    assert_eq!(AmdGeneration::Unknown.label(), "Unknown");
}
