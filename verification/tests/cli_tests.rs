use ntfs_undelete::cli::{Cli, validate_selection};
use ntfs_undelete::errors::Error;

#[test]
fn test_parse_and_validate_non_existant_image() {
    let args = Cli::parse_and_validate(
        Cli {
            dry_run: false,
            image: String::from("non-existant/ntfs.dd"),
            output_dir: String::from("src"),
        },
        false,
        true,
    );
    assert!(args.is_err());
}

#[test]
fn parse_and_validate_accepts_existing_paths() {
    let args = Cli {
        dry_run: false,
        image: String::from("ntfs.dd"),
        output_dir: String::from("out"),
    };
    let r = args.parse_and_validate(true, true);
    assert!(r.is_ok());
    let cli = r.unwrap();
    assert_eq!(cli.image, "ntfs.dd");
    assert_eq!(cli.output_dir, "out");
    assert!(!cli.dry_run);
}

#[test]
fn parse_and_validate_missing_output_dir_needs_dry_run() {
    let wet = Cli {
        dry_run: false,
        image: String::from("ntfs.dd"),
        output_dir: String::from("absent"),
    };
    match wet.parse_and_validate(true, false) {
        Err(Error::InputValidation(m)) => {
            assert_eq!(m, "Specified output directory is Non-existant!")
        }
        other => panic!("expected InputValidation, got {:?}", other),
    }
    let dry = Cli {
        dry_run: true,
        image: String::from("ntfs.dd"),
        output_dir: String::from("absent"),
    };
    assert!(dry.parse_and_validate(true, false).is_ok());
}

#[test]
fn empty_selection_outside_dry_run_is_refused() {
    match validate_selection(0, false) {
        Err(Error::InputValidation(m)) => assert_eq!(m, "No files selected"),
        other => panic!("expected InputValidation, got {:?}", other),
    }
    assert!(validate_selection(0, true).is_ok());
    assert!(validate_selection(3, false).is_ok());
}

#[test]
fn display_reports_all_three_options() {
    let cli = Cli {
        dry_run: true,
        image: String::from("disk.img"),
        output_dir: String::from("restored"),
    };
    let text = cli.display();
    assert_eq!(text, "dry-run: true\noutput-dir: restored\nimage: disk.img");
}
