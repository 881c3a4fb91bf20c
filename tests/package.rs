use leonbasic::package::{Host, PackageManager};
use leonbasic::value::Value;

struct Files {
    module: Option<Result<String, String>>,
    asked: usize,
}

impl Host for Files {
    fn call_native(&mut self, _name: &str, _args: Vec<Value>) -> Result<Value, String> {
        Ok(Value::Null)
    }

    fn find_module(&mut self, _root: &str, _name: &str) -> Option<Result<String, String>> {
        self.asked += 1;
        self.module.clone()
    }
}

#[test]
fn test_builtin_packages() {
    let mut host = Files { module: None, asked: 0 };
    let mut pm = PackageManager::new();
    assert!(pm.load_package("basic", &mut host).is_ok());
    assert!(pm.is_package_loaded("basic"));
}

#[test]
fn builtin_groups_need_no_file() {
    let mut host = Files { module: None, asked: 0 };
    let mut pm = PackageManager::new();
    for name in ["basic", "request", "time", "color"] {
        assert_eq!(pm.load_package(name, &mut host), Ok(String::new()));
        assert!(pm.is_package_loaded(name));
    }
    assert_eq!(host.asked, 0);
}

#[test]
fn missing_module_is_reported_and_not_loaded() {
    let mut host = Files { module: None, asked: 0 };
    let mut pm = PackageManager::new();
    assert_eq!(pm.load_package("utils", &mut host), Err("Module not found: utils".to_string()));
    assert!(!pm.is_package_loaded("utils"));
}

#[test]
fn unreadable_module_is_reported() {
    let mut host = Files { module: Some(Err("denied".to_string())), asked: 0 };
    let mut pm = PackageManager::new();
    assert_eq!(
        pm.load_package("utils", &mut host),
        Err("Failed to read module file: denied".to_string())
    );
    assert!(!pm.is_package_loaded("utils"));
}

#[test]
fn module_file_loads_once() {
    let mut host = Files { module: Some(Ok("var(a) = int:1".to_string())), asked: 0 };
    let mut pm = PackageManager::new();
    assert_eq!(pm.load_package("utils", &mut host), Ok("var(a) = int:1".to_string()));
    assert!(pm.is_package_loaded("utils"));
    assert_eq!(pm.load_package("utils", &mut host), Ok(String::new()));
    assert_eq!(host.asked, 1);
}

#[test]
fn require_path_is_passed_on() {
    let mut pm = PackageManager::new();
    assert_eq!(pm.require_path(), "./");
    pm.set_require_path("lib/");
    assert_eq!(pm.require_path(), "lib/");
}

#[test]
fn load_found_follows_host_answer() {
    let mut pm = PackageManager::new();
    assert_eq!(pm.load_found("a", None), Err("Module not found: a".to_string()));
    assert_eq!(pm.load_found("a", Some(Err("e".to_string()))), Err("Failed to read module file: e".to_string()));
    assert!(!pm.is_package_loaded("a"));
    assert_eq!(pm.load_found("a", Some(Ok("text".to_string()))), Ok("text".to_string()));
    assert!(pm.is_package_loaded("a"));
}
