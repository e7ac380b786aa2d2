use znode::runtime::{Hello, MyParams, MyRuntime};

struct Robot;

impl Hello for Robot {
    fn hello() {
        println!("Hello, I am Robot");
    }
}

#[test]
fn default_params_use_one_thread() {
    let p = MyParams::default();
    assert_eq!(p.threads, 1);
}

#[test]
fn each_pool_has_its_built_in_thread_count() {
    assert_eq!(MyRuntime::Application.params().threads, 1);
    assert_eq!(MyRuntime::Network.params().threads, 2);
}

#[test]
fn runtime_values_compare_and_copy() {
    let a = MyRuntime::Application;
    let b = a;
    assert_eq!(a, b);
    assert_ne!(MyRuntime::Application, MyRuntime::Network);
}

#[test]
fn hello_is_implementable() {
    Robot::hello();
}
