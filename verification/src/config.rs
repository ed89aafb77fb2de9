//! The shared configuration of the services and its defaults.
use vstd::prelude::*;

verus! {

/// Where the configuration file is read from when no path is given.
pub const DEFAULT_CONFIG_PATH: &'static str = "/etc/shepherd.toml";

/// The whole configuration: one section per concern.
#[derive(Debug)]
pub struct Config {
    pub mqtt: MqttConfig,
    pub app: AppConfig,
    pub run: RunConfig,
}

/// How to reach the MQTT broker.
#[derive(Debug)]
pub struct MqttConfig {
    pub broker: String,
    pub port: u16,
}

/// The web app service.
#[derive(Debug)]
pub struct AppConfig {
    pub service_id: String,
    pub host: String,
    pub port: u16,
    pub static_dir: String,
}

/// The user-code runner service.
#[derive(Debug)]
pub struct RunConfig {
    pub service_id: String,
    pub start_button: u32,
    pub gpio_device: String,
}

pub fn default_mqtt_broker() -> (r: String)
    ensures
        r@ == "localhost"@,
{
    "localhost".to_owned()
}

pub fn default_mqtt_port() -> (r: u16)
    ensures
        r == 1883,
{
    1883
}

impl MqttConfig {
    /// Each field has its default.
    pub open spec fn is_default(&self) -> bool {
        &&& self.broker@ == "localhost"@
        &&& self.port == 1883
    }
}

impl Default for MqttConfig {
    fn default() -> (r: Self)
        ensures
            r.is_default(),
            r.broker@ == "localhost"@,
            r.port == 1883,
    {
        MqttConfig { broker: default_mqtt_broker(), port: default_mqtt_port() }
    }
}

pub fn default_app_service_id() -> (r: String)
    ensures
        r@ == "shepherd-app"@,
{
    "shepherd-app".to_owned()
}

pub fn default_app_host() -> (r: String)
    ensures
        r@ == "0.0.0.0"@,
{
    "0.0.0.0".to_owned()
}

pub fn default_app_port() -> (r: u16)
    ensures
        r == 8080,
{
    8080
}

pub fn default_app_static_dir() -> (r: String)
    ensures
        r@ == "/var/shepherd/static"@,
{
    "/var/shepherd/static".to_owned()
}

impl AppConfig {
    /// Each field has its default.
    pub open spec fn is_default(&self) -> bool {
        &&& self.service_id@ == "shepherd-app"@
        &&& self.host@ == "0.0.0.0"@
        &&& self.port == 8080
        &&& self.static_dir@ == "/var/shepherd/static"@
    }
}

impl Default for AppConfig {
    fn default() -> (r: Self)
        ensures
            r.is_default(),
            r.service_id@ == "shepherd-app"@,
            r.host@ == "0.0.0.0"@,
            r.port == 8080,
            r.static_dir@ == "/var/shepherd/static"@,
    {
        AppConfig {
            service_id: default_app_service_id(),
            host: default_app_host(),
            port: default_app_port(),
            static_dir: default_app_static_dir(),
        }
    }
}

pub fn default_run_service_id() -> (r: String)
    ensures
        r@ == "shepherd-run"@,
{
    "shepherd-run".to_owned()
}

pub fn default_run_start_button() -> (r: u32)
    ensures
        r == 26,
{
    26
}

pub fn default_run_gpio_device() -> (r: String)
    ensures
        r@ == "gpiochip0"@,
{
    "gpiochip0".to_owned()
}

impl RunConfig {
    /// Each field has its default.
    pub open spec fn is_default(&self) -> bool {
        &&& self.service_id@ == "shepherd-run"@
        &&& self.start_button == 26
        &&& self.gpio_device@ == "gpiochip0"@
    }
}

impl Default for RunConfig {
    fn default() -> (r: Self)
        ensures
            r.is_default(),
            r.service_id@ == "shepherd-run"@,
            r.start_button == 26,
            r.gpio_device@ == "gpiochip0"@,
    {
        RunConfig {
            service_id: default_run_service_id(),
            start_button: default_run_start_button(),
            gpio_device: default_run_gpio_device(),
        }
    }
}

impl Config {
    /// Every section has its defaults.
    pub open spec fn is_default(&self) -> bool {
        &&& self.mqtt.is_default()
        &&& self.app.is_default()
        &&& self.run.is_default()
    }

    /// The file that the configuration is read from: `path` where one is
    /// given, `DEFAULT_CONFIG_PATH` otherwise.
    pub fn file_path<'a>(path: Option<&'a str>) -> (r: &'a str)
        ensures
            r@ == match path {
                Some(p) => p@,
                None => DEFAULT_CONFIG_PATH@,
            },
    {
        match path {
            Some(p) => p,
            None => DEFAULT_CONFIG_PATH,
        }
    }
}

impl Default for Config {
    fn default() -> (r: Self)
        ensures
            r.is_default(),
            r.mqtt.broker@ == "localhost"@,
            r.mqtt.port == 1883,
            r.app.service_id@ == "shepherd-app"@,
            r.app.host@ == "0.0.0.0"@,
            r.app.port == 8080,
            r.app.static_dir@ == "/var/shepherd/static"@,
            r.run.service_id@ == "shepherd-run"@,
            r.run.start_button == 26,
            r.run.gpio_device@ == "gpiochip0"@,
    {
        Config { mqtt: MqttConfig::default(), app: AppConfig::default(), run: RunConfig::default() }
    }
}

/// A configuration with its defaults has, field by field, the default
/// values: the broker at `localhost:1883`; the web app `shepherd-app` on
/// `0.0.0.0:8080` serving `/var/shepherd/static`; the runner `shepherd-run`
/// with its start button on line 26 of `gpiochip0`.
pub proof fn lemma_default_config_values(c: Config)
    requires
        c.is_default(),
    ensures
        c.mqtt.broker@ == "localhost"@,
        c.mqtt.port == 1883,
        c.app.service_id@ == "shepherd-app"@,
        c.app.host@ == "0.0.0.0"@,
        c.app.port == 8080,
        c.app.static_dir@ == "/var/shepherd/static"@,
        c.run.service_id@ == "shepherd-run"@,
        c.run.start_button == 26,
        c.run.gpio_device@ == "gpiochip0"@,
{
}

} // verus!
