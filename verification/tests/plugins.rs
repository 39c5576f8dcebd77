use zenoh_net::config::Config;
use zenoh_net::error::{ZError, ZResult};
use zenoh_net::plugins::{Plugin, Response, RunningPluginTrait, ZenohPlugin, PLUGIN_PREFIX};
use zenoh_net::runtime::Runtime;

struct Running {
    pid: String,
}

impl RunningPluginTrait for Running {
    fn adminspace_getter(&self, selector: &str, plugin_status_key: &str) -> ZResult<Vec<Response>> {
        if selector.is_empty() {
            return Err(ZError::Closed);
        }
        Ok(vec![Response::new(
            format!("{}/{}", plugin_status_key, selector),
            serde_json::Value::String(self.pid.clone()),
        )])
    }
}

struct Example;

impl Plugin for Example {
    type StartArgs = Runtime;
    type RunningPlugin = Running;

    fn start(_name: &str, args: &Runtime) -> ZResult<Running> {
        Ok(Running { pid: args.get_pid_str() })
    }
}

impl ZenohPlugin for Example {}

fn start<P: ZenohPlugin>(runtime: &Runtime) -> ZResult<P::RunningPlugin> {
    P::start("example", runtime)
}

#[test]
fn a_plugin_is_started_with_the_runtime() {
    let runtime = Runtime::new(0, Config::peer(), Some("0a")).unwrap();
    let running = start::<Example>(&runtime).unwrap();
    let answers = running.adminspace_getter("x", "status").unwrap();
    assert_eq!(answers.len(), 1);
    assert_eq!(answers[0].key, "status/x");
    assert_eq!(answers[0].value, serde_json::Value::String("0A".to_string()));
    assert!(running.adminspace_getter("", "status").is_err());
    assert_eq!(PLUGIN_PREFIX, "zplugin_");
}
