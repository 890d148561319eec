use tachibana::game::Error;

#[test]
fn error_keeps_the_driver_code() {
    let e = Error::from(ash::vk::Result::ERROR_DEVICE_LOST);
    assert_eq!(e, Error::RendererError(ash::vk::Result::ERROR_DEVICE_LOST));
    assert_eq!(e.source(), ash::vk::Result::ERROR_DEVICE_LOST);
    assert_ne!(e, Error::RendererError(ash::vk::Result::ERROR_OUT_OF_HOST_MEMORY));
}

#[test]
fn error_message_is_the_driver_text() {
    let e = Error::RendererError(ash::vk::Result::ERROR_OUT_OF_HOST_MEMORY);
    assert_eq!(e.message(), "A host memory allocation has failed");
    let e = Error::RendererError(ash::vk::Result::ERROR_DEVICE_LOST);
    assert_eq!(e.message(), format!("{}", ash::vk::Result::ERROR_DEVICE_LOST));
    assert_ne!(
        Error::RendererError(ash::vk::Result::TIMEOUT).message(),
        Error::RendererError(ash::vk::Result::NOT_READY).message()
    );
}
