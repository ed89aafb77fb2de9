use shepherd::common::{status_for, Mode, RunState, Zone};
use shepherd::config::{
    default_app_host, default_app_port, default_app_service_id, default_app_static_dir, default_mqtt_broker,
    default_mqtt_port, default_run_gpio_device, default_run_service_id, default_run_start_button, AppConfig, Config,
    MqttConfig, RunConfig, DEFAULT_CONFIG_PATH,
};

#[test]
fn status_channel_of_runner() {
    assert_eq!(status_for("shepherd-run"), "shepherd-run/status");
}

#[test]
fn status_channel_of_empty_id() {
    assert_eq!(status_for(""), "/status");
}

#[test]
fn status_channel_keeps_slashes_and_unicode() {
    assert_eq!(status_for("a/b-é"), "a/b-é/status");
}

#[test]
fn enum_defaults() {
    assert_eq!(RunState::default(), RunState::Init);
    assert_eq!(Zone::default(), Zone::Red);
    assert_eq!(Mode::default(), Mode::Dev);
}

#[test]
fn field_defaults() {
    assert_eq!(default_mqtt_broker(), "localhost");
    assert_eq!(default_mqtt_port(), 1883);
    assert_eq!(default_app_service_id(), "shepherd-app");
    assert_eq!(default_app_host(), "0.0.0.0");
    assert_eq!(default_app_port(), 8080);
    assert_eq!(default_app_static_dir(), "/var/shepherd/static");
    assert_eq!(default_run_service_id(), "shepherd-run");
    assert_eq!(default_run_start_button(), 26);
    assert_eq!(default_run_gpio_device(), "gpiochip0");
}

#[test]
fn section_defaults() {
    let m = MqttConfig::default();
    assert_eq!(m.broker, "localhost");
    assert_eq!(m.port, 1883);
    let a = AppConfig::default();
    assert_eq!(a.service_id, "shepherd-app");
    assert_eq!(a.host, "0.0.0.0");
    assert_eq!(a.port, 8080);
    assert_eq!(a.static_dir, "/var/shepherd/static");
    let r = RunConfig::default();
    assert_eq!(r.service_id, "shepherd-run");
    assert_eq!(r.start_button, 26);
    assert_eq!(r.gpio_device, "gpiochip0");
}

#[test]
fn whole_config_default_is_section_defaults() {
    let c = Config::default();
    assert_eq!(c.mqtt.broker, "localhost");
    assert_eq!(c.mqtt.port, 1883);
    assert_eq!(c.app.service_id, "shepherd-app");
    assert_eq!(c.app.port, 8080);
    assert_eq!(c.run.service_id, "shepherd-run");
    assert_eq!(c.run.start_button, 26);
    assert_eq!(c.run.gpio_device, "gpiochip0");
}

#[test]
fn config_path_defaults_to_etc() {
    assert_eq!(Config::file_path(None), "/etc/shepherd.toml");
    assert_eq!(DEFAULT_CONFIG_PATH, "/etc/shepherd.toml");
}

#[test]
fn config_path_given_is_used() {
    assert_eq!(Config::file_path(Some("/tmp/x.toml")), "/tmp/x.toml");
}
