use std::cell::RefCell;
use hopper_core::launcher::{assemble_params, Execer, LauncherReal};

struct ExecerMock {
    exec_params: RefCell<Vec<Vec<String>>>,
    exec_results: RefCell<Vec<Result<u32, String>>>,
}

impl Execer for ExecerMock {
    fn exec(&self, params: Vec<String>) -> Result<u32, String> {
        self.exec_params.borrow_mut().push(params);
        self.exec_results.borrow_mut().remove(0)
    }
}

impl ExecerMock {
    fn new() -> Self {
        ExecerMock {
            exec_params: RefCell::new(vec![]),
            exec_results: RefCell::new(vec![]),
        }
    }

    fn exec_result(self, result: Result<u32, String>) -> Self {
        self.exec_results.borrow_mut().push(result);
        self
    }
}

fn params_fixture() -> Vec<(String, String)> {
    vec![
        ("name".to_string(), "value".to_string()),
        ("ui-port".to_string(), "5333".to_string()),
    ]
}

#[test]
fn launch_calls_execer_and_returns_success() {
    let execer = ExecerMock::new().exec_result(Ok(1234));
    let subject = LauncherReal::new(execer);
    let params = params_fixture();

    let result = subject.launch(params.clone(), 50000).unwrap().unwrap();

    assert_eq!(result.new_process_id, 1234);
    assert!(result.redirect_ui_port > 1024);
    let exec_params = subject.execer.exec_params.borrow();
    assert_eq!(
        *exec_params,
        vec![vec![
            "--name".to_string(),
            "value".to_string(),
            "--ui-port".to_string(),
            format!("{}", result.redirect_ui_port),
        ]]
    );
}

#[test]
fn launch_calls_execer_and_returns_failure() {
    let execer = ExecerMock::new().exec_result(Err("Booga!".to_string()));
    let subject = LauncherReal::new(execer);
    let params = params_fixture();

    let result = subject.launch(params.clone(), 50000).err().unwrap();

    assert_eq!(result, "Booga!".to_string());
}

#[test]
fn assemble_params_sorts_substitutes_and_flattens() {
    let params = vec![
        ("ui-port".to_string(), "5333".to_string()),
        ("zebra".to_string(), "stripes".to_string()),
        ("name".to_string(), "value".to_string()),
    ];

    let result = assemble_params(params, 12345);

    assert_eq!(
        result,
        vec![
            "--name".to_string(),
            "value".to_string(),
            "--ui-port".to_string(),
            "12345".to_string(),
            "--zebra".to_string(),
            "stripes".to_string(),
        ]
    );
}
