use envie::TerraformScanner;

const CONTENT: &str = "
data \"terraform_remote_state\" \"db\" {
  backend = \"s3\"
  config = {
    bucket = \"state-bucket\"
    key    = \"db.tfstate\"
  }
}

data \"terraform_remote_state\" \"net\" {
}
";

#[test]
fn scanner_finds_each_reference() {
    let scanner = TerraformScanner::new().unwrap();
    let deps = scanner.scan_content(CONTENT).unwrap();
    assert_eq!(deps.len(), 2);
    assert_eq!(deps[0].data_source_name, "db");
    assert_eq!(deps[0].backend_type, "s3");
    assert_eq!(deps[0].backend_config.get("bucket"), Some(&"state-bucket".to_string()));
    assert_eq!(deps[0].backend_config.get("key"), Some(&"db.tfstate".to_string()));
    assert_eq!(deps[1].data_source_name, "net");
    assert_eq!(deps[1].backend_config.len(), 0);
}

#[test]
fn scanner_reads_the_declared_backend() {
    let scanner = TerraformScanner::new().unwrap();
    let deps = scanner
        .scan_content("data \"terraform_remote_state\" \"x\" {\r\n  backend = \"gcs\"\r\n")
        .unwrap();
    assert_eq!(deps.len(), 1);
    assert_eq!(deps[0].backend_type, "gcs");
}

#[test]
fn scanner_on_text_without_references() {
    let scanner = TerraformScanner::new().unwrap();
    assert!(scanner.scan_content("resource \"x\" \"y\" {}\n").unwrap().is_empty());
    assert!(scanner.scan_content("").unwrap().is_empty());
}

#[test]
fn used_outputs_are_listed_once() {
    let scanner = TerraformScanner::new().unwrap();
    let text = "a = data.terraform_remote_state.db.outputs.table_name\n\
                b = data.terraform_remote_state.db.outputs.table_arn\n\
                c = data.terraform_remote_state.db.outputs.table_name\n\
                d = data.terraform_remote_state.net.outputs.vpc_id\n";
    assert_eq!(scanner.extract_used_outputs(text, "db"), vec!["table_name", "table_arn"]);
    assert_eq!(scanner.extract_used_outputs(text, "net"), vec!["vpc_id"]);
    assert!(scanner.extract_used_outputs(text, "none").is_empty());
}
