use trop::entry::{
    check_entry, encode_cell, gamma_output, message_bytes, summarize_fits, twostep_status,
    uses_covariates, written, CellFit, EntryArgs, EntryPoint, ABI_VERSION,
};
use trop::error::TropError;

const ENTRIES: [EntryPoint; 24] = [
    EntryPoint::LoocvGridSearch,
    EntryPoint::LoocvGridSearchExhaustive,
    EntryPoint::EstimateTwostep,
    EntryPoint::BootstrapTwostep,
    EntryPoint::LoocvCyclingSearchJoint,
    EntryPoint::LoocvGridSearchJoint,
    EntryPoint::EstimateJoint,
    EntryPoint::BootstrapJoint,
    EntryPoint::EstimateTwostepWeighted,
    EntryPoint::BootstrapTwostepWeighted,
    EntryPoint::EstimateJointWeighted,
    EntryPoint::BootstrapJointWeighted,
    EntryPoint::BootstrapRaoWu,
    EntryPoint::BootstrapRaoWuJoint,
    EntryPoint::UnitDistanceMatrix,
    EntryPoint::TwostepWeightVectors,
    EntryPoint::JointWeightVectors,
    EntryPoint::LoocvGridSearchWithCovariates,
    EntryPoint::LoocvGridSearchExhaustiveWithCovariates,
    EntryPoint::EstimateTwostepWithCovariates,
    EntryPoint::BootstrapTwostepWithCovariates,
    EntryPoint::EstimateJointWithCovariates,
    EntryPoint::BootstrapJointWithCovariates,
    EntryPoint::SurveyDiagnostics,
];

/// Status of an entry point called with null pointers and no dimensions.
fn status_with_null(entry: EntryPoint) -> i32 {
    let args = EntryArgs {
        pointers_present: false,
        n_periods: 0,
        n_units: 0,
        covariates_present: false,
        n_covariates: 0,
    };
    check_entry(entry, args).code()
}

#[test]
fn test_ffi_null_pointer_twostep() {
    let code = status_with_null(EntryPoint::EstimateTwostep);
    assert_eq!(
        code,
        TropError::NullPointer.code(),
        "Null y_ptr should return NullPointer, got {}",
        code
    );
}

#[test]
fn test_ffi_null_pointer_joint() {
    let code = status_with_null(EntryPoint::EstimateJoint);
    assert_eq!(
        code,
        TropError::NullPointer.code(),
        "Null y_ptr should return NullPointer, got {}",
        code
    );
}

#[test]
fn test_ffi_null_pointer_bootstrap() {
    let code = status_with_null(EntryPoint::BootstrapTwostep);
    assert_eq!(
        code,
        TropError::NullPointer.code(),
        "Null y_ptr should return NullPointer, got {}",
        code
    );
}

#[test]
fn test_ffi_null_pointer_loocv() {
    let code = status_with_null(EntryPoint::LoocvGridSearch);
    assert_eq!(
        code,
        TropError::NullPointer.code(),
        "Null y_ptr should return NullPointer, got {}",
        code
    );
}

#[test]
fn test_ffi_invalid_dimension_twostep() {
    let args = EntryArgs {
        pointers_present: true,
        n_periods: 0,
        n_units: 0,
        covariates_present: false,
        n_covariates: 0,
    };
    let code = check_entry(EntryPoint::EstimateTwostep, args).code();
    assert_ne!(code, 0, "Zero dimensions should return an error code, not success");
    assert_eq!(code, TropError::InvalidDimension.code());
}

#[test]
fn null_pointers_come_first_everywhere() {
    for entry in ENTRIES {
        assert_eq!(status_with_null(entry), TropError::NullPointer.code());
    }
}

#[test]
fn dimensions_are_checked_where_they_are() {
    for entry in ENTRIES {
        let mut args = EntryArgs {
            pointers_present: true,
            n_periods: 3,
            n_units: -1,
            covariates_present: true,
            n_covariates: 2,
        };
        let expected = if entry.is_dimension_checked() {
            TropError::InvalidDimension
        } else {
            TropError::Success
        };
        assert_eq!(check_entry(entry, args), expected);
        args.n_units = 4;
        assert_eq!(check_entry(entry, args), TropError::Success);
    }
    assert!(EntryPoint::BootstrapJoint.is_dimension_checked());
    assert!(!EntryPoint::BootstrapRaoWu.is_dimension_checked());
}

#[test]
fn missing_covariates_are_a_null_pointer() {
    let mut args = EntryArgs {
        pointers_present: true,
        n_periods: 0,
        n_units: 4,
        covariates_present: false,
        n_covariates: 2,
    };
    let entry = EntryPoint::EstimateJointWithCovariates;
    assert!(entry.is_covariate_checked());
    assert_eq!(check_entry(entry, args), TropError::NullPointer);
    args.n_covariates = 0;
    assert_eq!(check_entry(entry, args), TropError::Success);
    args.n_covariates = 2;
    assert!(!EntryPoint::EstimateJoint.is_covariate_checked());
    assert_eq!(check_entry(EntryPoint::EstimateJoint, args), TropError::InvalidDimension);
    args.n_periods = 3;
    assert_eq!(check_entry(EntryPoint::EstimateJoint, args), TropError::Success);
}

#[test]
fn joint_entries_require_simultaneous_adoption() {
    assert_eq!(ENTRIES.iter().filter(|e| e.is_joint()).count(), 10);
    assert!(EntryPoint::JointWeightVectors.is_joint());
    assert!(!EntryPoint::EstimateTwostep.is_joint());
}

#[test]
fn covariates_take_part_only_if_present() {
    assert!(uses_covariates(1, true));
    assert!(!uses_covariates(1, false));
    assert!(!uses_covariates(0, true));
    assert!(!uses_covariates(-1, true));
}

#[test]
fn cells_are_written_back() {
    assert_eq!(encode_cell(Some((3, 7))), (3, 7));
    assert_eq!(encode_cell(None), (-1, -1));
}

#[test]
fn fits_are_summarised_in_order() {
    let fits = vec![
        Some(CellFit { n_iters: 4, converged: true }),
        None,
        Some(CellFit { n_iters: 9, converged: false }),
        Some(CellFit { n_iters: 2, converged: true }),
    ];
    let s = summarize_fits(&fits);
    assert_eq!(s.n_successful, 3);
    assert_eq!(s.max_iters, 9);
    assert!(!s.all_converged);
    assert_eq!(s.converged_by_obs, vec![1, -1, 0, 1]);
    assert_eq!(s.n_iters_by_obs, vec![4, -1, 9, 2]);
}

#[test]
fn no_treated_cell_and_no_successful_fit_are_errors() {
    assert_eq!(twostep_status(&vec![]).err(), Some(TropError::NoTreated));
    assert_eq!(twostep_status(&vec![None, None]).err(), Some(TropError::Convergence));
    let ok = twostep_status(&vec![None, Some(CellFit { n_iters: 1, converged: true })]);
    let s = ok.unwrap();
    assert_eq!(s.n_successful, 1);
    assert!(s.all_converged);
}

#[test]
fn coefficients_are_written_or_zero() {
    let gamma = vec![1.5_f64.to_bits(), (-2.0_f64).to_bits()];
    assert_eq!(gamma_output(Some(&gamma), 2), gamma);
    assert_eq!(gamma_output(None, 3), vec![0, 0, 0]);
}

#[test]
fn messages_are_cut_and_terminated() {
    let message = b"boom".to_vec();
    assert_eq!(message_bytes(&message, 10), b"boom\0".to_vec());
    assert_eq!(message_bytes(&message, 5), b"boom\0".to_vec());
    assert_eq!(message_bytes(&message, 3), b"bo\0".to_vec());
    assert_eq!(message_bytes(&message, 1), vec![0]);
    assert!(message_bytes(&message, 0).is_empty());
    assert!(message_bytes(&message, -4).is_empty());
}

#[test]
fn output_is_cut_to_the_room() {
    assert_eq!(written(5, 3), 3);
    assert_eq!(written(2, 3), 2);
    assert_eq!(written(2, 0), 0);
    assert_eq!(written(2, -1), 0);
}

#[test]
fn interface_version() {
    assert_eq!(ABI_VERSION, 2);
}
