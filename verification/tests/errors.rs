use guhs::space::GeometryError;
use guhs::stats::ProbabilityError;
use guhs::triangle::TriangleError;
use guhs::trig::TrigError;

#[test]
fn space_error_messages() {
    assert_eq!(GeometryError::ZeroVector.message(), "零向量没有方向");
    assert_eq!(GeometryError::NotPerpendicular.message(), "两向量不垂直");
    assert_eq!(GeometryError::NotCoplanar.message(), "传入的两点不共面");
    assert_eq!(GeometryError::NotParallel.message(), "两向量不平行");
    assert_eq!(GeometryError::InvalidParam.message(), "给定的参数无效");
}

#[test]
fn space_errors_are_five_distinct_values() {
    let all = [
        GeometryError::ZeroVector,
        GeometryError::NotPerpendicular,
        GeometryError::NotCoplanar,
        GeometryError::NotParallel,
        GeometryError::InvalidParam,
    ];
    for (i, a) in all.iter().enumerate() {
        for (j, b) in all.iter().enumerate() {
            assert_eq!(a == b, i == j);
            assert_eq!(a.message() == b.message(), i == j);
        }
    }
}

#[test]
fn triangle_error_messages() {
    assert_eq!(TriangleError::LengthNegative.message(), "三角形不存在 [length<0]");
    assert_eq!(TriangleError::ResultNegative.message(), "三角形不存在 [square<0]");
    assert_eq!(TriangleError::AngleNegative.message(), "三角形不存在 [angle<0]");
    assert_eq!(TriangleError::AngleOutRange.message(), "三角形不存在 [angleOutRange]");
    assert_eq!(TriangleError::AngleFault.message(), "三角形不存在 [angleTotal!=Pi]");
    assert_eq!(TriangleError::CalibrationFail.message(), "计算结果不一 [present!=previous]");
    assert_eq!(TriangleError::CalculateFail.message(), "无法计算     {!}");
}

#[test]
fn trig_error_messages() {
    assert_eq!(TrigError::OutDefinition.message(), "函数在此时没有定义");
    assert_eq!(TrigError::OutRange.message(), "正余弦值超出范围");
    assert_eq!(TrigError::OutRule.message(), "Omega不得为零");
}

#[test]
fn probability_error_messages() {
    assert_eq!(ProbabilityError::DntPositive.message(), "实参须为正数");
    assert_eq!(ProbabilityError::DntExist.message(), "切片须为非空集合");
}
